//! A record of the draws that were made, for proofs only.

use rand::distributions::Bernoulli;
use std::mem::MaybeUninit;
use vstd::prelude::*;
use vstd::std_specs::maybe_uninit::MaybeUninitAdditionalSpecFns;

verus! {

/// The draws that were made with this record, each with its rate and its outcome. It takes no
/// room when the program runs. A record starts empty, cannot be copied, and grows by nothing but
/// a draw: who holds one that has grown by one entry has drawn once with it. (The ghost value is
/// held in a `MaybeUninit`, which can be printed whatever it holds.)
#[derive(Debug)]
pub struct DrawLog {
    entries: MaybeUninit<Ghost<Seq<(Bernoulli, bool)>>>,
}

impl View for DrawLog {
    type V = Seq<(Bernoulli, bool)>;

    closed spec fn view(&self) -> Seq<(Bernoulli, bool)> {
        self.entries.mem_contents().value()@
    }
}

/// The view of a record shows the entries that it holds.
proof fn law_a_record_is_seen_as_it_is(log: DrawLog)
    ensures
        log@ == log.entries.mem_contents().value()@,
{
}

impl DrawLog {
    pub fn new() -> (log: Self)
        ensures
            log@ == Seq::<(Bernoulli, bool)>::empty(),
    {
        DrawLog { entries: MaybeUninit::new(Ghost(Seq::empty())) }
    }
}

} // verus!
