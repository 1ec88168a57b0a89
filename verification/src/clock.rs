//! Upload timestamps: a trusted read of the wall clock, and a verified
//! rendering of it as `<seconds>.<millis>Z`.

use vstd::prelude::*;
use vstd::string::StringExecFns;

use crate::decimal::{dec3_rep, dec_rep, push_three_digits, u64_to_decimal};
use std::time::SystemTime;
use std::time::UNIX_EPOCH;

verus! {

/// The rendered form of a clock reading: whole seconds since the Unix
/// epoch, a dot, the millisecond remainder padded to three digits, and a
/// trailing `Z`.
pub open spec fn stamp_rep(secs: nat, millis: nat) -> Seq<char> {
    dec_rep(secs) + seq!['.'] + dec3_rep(millis) + seq!['Z']
}

/// A string that some clock reading renders to.
pub open spec fn is_timestamp(s: Seq<char>) -> bool {
    exists|secs: nat, millis: nat| millis < 1000 && s == #[trigger] stamp_rep(secs, millis)
}

/// Relies on `std::time::SystemTime`: the duration since the Unix epoch
/// (zero if the clock lies before it), split into whole seconds and the
/// millisecond remainder; `Duration::subsec_millis` is below 1000.
#[verifier::external_body]
fn now_secs_and_millis() -> (r: (u64, u32))
    ensures
        r.1 < 1000,
{
    let now = SystemTime::now().duration_since(UNIX_EPOCH).unwrap_or_default();
    (now.as_secs(), now.subsec_millis())
}

/// The current time as `<seconds>.<millis>Z`, for stamping new records.
pub fn now_string() -> (r: String)
    ensures
        is_timestamp(r@),
{
    let (secs, millis) = now_secs_and_millis();
    let mut s = u64_to_decimal(secs);
    s.append(".");
    push_three_digits(&mut s, millis);
    s.append("Z");
    proof {
        reveal_strlit(".");
        reveal_strlit("Z");
        assert(s@ =~= stamp_rep(secs as nat, millis as nat));
    }
    s
}

} // verus!
