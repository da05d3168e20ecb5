//! The receiver's clock, read once per datagram or per tick.

use vstd::prelude::*;

use crate::game::GameCommand;
use crate::wire::{decode_frame, spec_decode};

verus! {

/// Relies on chrono's `Utc::now` and `DateTime::timestamp`: the whole
/// seconds since the Unix epoch by the system clock. Nothing is assumed of
/// the value; every caller states what holds whatever the clock read.
#[verifier::external_body]
pub fn now_timestamp() -> i64 {
    chrono::Utc::now().timestamp()
}

/// Decode one datagram against the clock as it stands now. Whatever the
/// clock read, the result is the codec's verdict under some `now`; callers
/// that need the freshness window pinned pass their own clock to
/// [`decode_frame`].
pub fn decode_frame_now(buf: &[u8]) -> (r: Option<GameCommand>)
    ensures
        r is Some ==> exists|now: i64| spec_decode(buf@, now) == Some(r->0@),
        r is None ==> exists|now: i64| spec_decode(buf@, now) is None,
{
    let now = now_timestamp();
    let r = decode_frame(buf, now);
    proof {
        if r is Some {
            assert(spec_decode(buf@, now) == Some(r->0@));
        } else {
            assert(spec_decode(buf@, now) is None);
        }
    }
    r
}

} // verus!
