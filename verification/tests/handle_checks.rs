use bark_core::handle::{live_handle, may_create, push_count};

#[test]
fn handles() {
    assert_eq!(live_handle(0), Err("BarkPipeline not initialized".to_string()));
    assert_eq!(live_handle(0x7f00_1234), Ok(0x7f00_1234));
    assert_eq!(live_handle(-8), Ok(-8));
    assert_eq!(may_create(0), Ok(()));
    assert_eq!(may_create(42), Err("BarkPipeline already initialized".to_string()));
}

#[test]
fn push_counts() {
    assert_eq!(push_count(-1, 10), Err("Sample count must be non-negative".to_string()));
    assert_eq!(push_count(11, 10), Err("Sample count exceeds array length".to_string()));
    assert_eq!(push_count(10, 10), Ok(10));
    assert_eq!(push_count(0, 0), Ok(0));
    assert_eq!(push_count(3, 10), Ok(3));
}
