use bark_core::config::PostConfig;
use bark_core::ogg_opus::OggOpusWriter;
use bark_core::legacy_config::{DeEmdasherConfig, PostConfig as LegacyPostConfig};
use bark_core::post::{finalized_text, normalize_text, postprocess};
use bark_core::postprocessor::{postprocess as legacy_postprocess, translate_symbols, DeEmdasher};
use bark_core::text::{contains_str, replace_newlines};

#[test]
fn normalize_replaces_typographic_characters() {
    assert_eq!(
        normalize_text("\u{00AB}Hi\u{00BB} \u{2014} it\u{2019}s\u{2026} fine\u{00A0}ok\u{200B}!"),
        "\"Hi\" - it's... fine ok!"
    );
    assert_eq!(normalize_text("a\u{2013}b \u{201E}c\u{201C} \u{2018}d\u{00AD}"), "a-b 'c\" 'd");
    assert_eq!(normalize_text("plain text"), "plain text");
    assert_eq!(normalize_text(""), "");
}

#[test]
fn normalize_is_idempotent_on_examples() {
    for s in ["\u{2026}\u{2026}", "x\u{202F}y\u{2009}z", "\u{201D}q\u{201C}"] {
        let once = normalize_text(s);
        assert_eq!(normalize_text(&once), once);
    }
}

#[test]
fn core_postprocess_normalizes() {
    assert_eq!(postprocess("a\u{2014}b", &PostConfig {}), "a-b");
}

#[test]
fn finalized_text_cases() {
    assert_eq!(finalized_text(None, &PostConfig {}), "");
    assert_eq!(finalized_text(Some(String::new()), &PostConfig {}), "");
    assert_eq!(finalized_text(Some("wait\u{2026}".to_string()), &PostConfig {}), "wait...");
}

#[test]
fn translate_symbols_low_double_quote_and_quotes() {
    assert_eq!(translate_symbols("\u{201E}x\u{201C} \u{2018}y\u{2019}"), "\"x\" 'y'");
    assert_eq!(translate_symbols("soft\u{00AD}hyphen"), "softhyphen");
}

#[test]
fn deemdasher_default_keeps_spaced_hyphens() {
    assert_eq!(DeEmdasher::default().process("a - b"), "a - b");
}

#[test]
fn deemdasher_doubles_only_spaced_hyphens() {
    let d = DeEmdasher::new(&DeEmdasherConfig { doubledash: true });
    assert_eq!(d.process("a-b - c\t-\nd - - e"), "a-b -- c\t--\nd -- - e");
    assert_eq!(d.process("x \u{2014} y"), "x -- y");
}

#[test]
fn legacy_postprocess_trims_and_joins_lines() {
    let cfg = LegacyPostConfig { deemdasher: Some(DeEmdasherConfig { doubledash: true }) };
    assert_eq!(legacy_postprocess("  a\u{2014}b - c\nd \n", &cfg), "a-b -- c d");
    let plain = LegacyPostConfig { deemdasher: None };
    assert_eq!(legacy_postprocess("\u{2014}\n", &plain), "\u{2014}");
    assert_eq!(legacy_postprocess(" one\ntwo ", &LegacyPostConfig::default()), "one two");
}

#[test]
fn text_helpers() {
    assert_eq!(replace_newlines("a\nb\n"), "a b ");
    assert!(contains_str("https://api.groq.com/x", "groq.com"));
    assert!(!contains_str("groq.co", "groq.com"));
    assert!(contains_str("abc", ""));
}

#[test]
fn translate_is_idempotent_on_examples() {
    for s in ["\u{2026}\u{201E}x\u{201C}", "a\u{00A0}b\u{200B}c", "plain"] {
        let once = translate_symbols(s);
        assert_eq!(translate_symbols(&once), once);
    }
}

#[test]
fn doubling_spaced_hyphens_is_not_idempotent() {
    let d = DeEmdasher::new(&DeEmdasherConfig { doubledash: true });
    let once = d.process("a - - b");
    assert_eq!(once, "a -- - b");
    assert_eq!(d.process(&once), "a -- -- b");
}

#[test]
fn ogg_page_lacing_reads_back() {
    for len in [0usize, 1, 254, 255, 256, 510, 1000] {
        let mut w = OggOpusWriter::new(16_000);
        w.write_audio_packet(&vec![3u8; len], 320);
        let bytes = w.into_bytes();
        let nseg = bytes[26] as usize;
        let segs = &bytes[27..27 + nseg];
        assert_eq!(nseg, len / 255 + 1);
        assert!(segs[..nseg - 1].iter().all(|&v| v == 255));
        assert!(segs[nseg - 1] < 255);
        assert_eq!(segs.iter().map(|&v| v as usize).sum::<usize>(), len);
    }
}
