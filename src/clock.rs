use vstd::prelude::*;

verus! {

/// Relies on std's `SystemTime::now` and `SystemTime::duration_since(UNIX_EPOCH)`: the current
/// time in whole seconds since the Unix epoch. `None` when the clock reads a time before 1970
/// (the error of `duration_since`) or one too far ahead for an `i64`. Nothing else is promised:
/// the value depends on the clock.
#[verifier::external_body]
pub(crate) fn now_timestamp() -> (r: Option<i64>)
    ensures
        r matches Some(t) ==> t >= 0,
{
    match std::time::SystemTime::now().duration_since(std::time::UNIX_EPOCH) {
        Ok(d) => i64::try_from(d.as_secs()).ok(),
        Err(_) => None,
    }
}

} // verus!
