use bark_core::legacy_config::DeEmdasherConfig;
use bark_core::postprocessor::DeEmdasher;

#[test]
fn deemdasher_basic() {
    let cfg = DeEmdasherConfig { doubledash: false };
    let d = DeEmdasher::new(&cfg);
    // Em dash → ASCII hyphen
    assert_eq!(d.process("hello\u{2014}world"), "hello-world");
    // Ellipsis
    assert_eq!(d.process("wait\u{2026}"), "wait...");
}

#[test]
fn deemdasher_doubledash() {
    let cfg = DeEmdasherConfig { doubledash: true };
    let d = DeEmdasher::new(&cfg);
    assert_eq!(d.process("a - b"), "a -- b");
}
