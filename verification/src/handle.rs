//! Checks made by the Java bindings before they touch a native pipeline:
//! whether a handle is live, whether a pipeline may be created, and how
//! many samples of a pushed array are taken.

use vstd::prelude::*;
use vstd::string::StringExecFns;

verus! {

/// The complaint about a call on a pipeline that does not exist.
pub open spec fn not_initialized_message() -> Seq<char> {
    "BarkPipeline not initialized"@
}

/// The complaint about creating a pipeline twice.
pub open spec fn already_initialized_message() -> Seq<char> {
    "BarkPipeline already initialized"@
}

/// The complaint about a negative sample count.
pub open spec fn negative_count_message() -> Seq<char> {
    "Sample count must be non-negative"@
}

/// The complaint about a sample count beyond the array.
pub open spec fn count_too_large_message() -> Seq<char> {
    "Sample count exceeds array length"@
}

/// A stored handle refers to a pipeline unless it is zero.
pub fn live_handle(handle: i64) -> (res: Result<i64, String>)
    ensures
        handle != 0 ==> res == Ok::<i64, String>(handle),
        handle == 0 ==> (res matches Err(m) && m@ == not_initialized_message()),
{
    if handle == 0 {
        Err(String::from_str("BarkPipeline not initialized"))
    } else {
        Ok(handle)
    }
}

/// A pipeline may be created only where none is stored yet.
pub fn may_create(handle: i64) -> (res: Result<(), String>)
    ensures
        handle == 0 <==> res is Ok,
        res matches Err(m) ==> m@ == already_initialized_message(),
{
    if handle == 0 {
        Ok(())
    } else {
        Err(String::from_str("BarkPipeline already initialized"))
    }
}

/// How many samples of an array of `array_len` samples a push takes when
/// the caller names `samples`: an error for a negative count or one beyond
/// the array, else the count itself (zero: nothing to push).
pub fn push_count(samples: i32, array_len: i32) -> (res: Result<usize, String>)
    ensures
        samples < 0 ==> (res matches Err(m) && m@ == negative_count_message()),
        0 <= samples && samples > array_len ==> (res matches Err(m) && m@
            == count_too_large_message()),
        0 <= samples <= array_len ==> res == Ok::<usize, String>(samples as usize),
{
    if samples < 0 {
        return Err(String::from_str("Sample count must be non-negative"));
    }
    if samples > array_len {
        return Err(String::from_str("Sample count exceeds array length"));
    }
    Ok(samples as usize)
}

} // verus!
