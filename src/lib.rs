//! Request-level computations for a small set of puzzle endpoints: an XOR-cube
//! over slash-separated packet ids, aggregates over reindeer records, and
//! substring counts over free text. Routing and wire formats live outside.
use vstd::prelude::*;

pub mod text;
pub mod packets;
pub mod elves;
pub mod reindeer;

use crate::elves::elf_counts_spec;
use crate::packets::{packet_cube_spec, PacketError};
use crate::reindeer::{
    contest_spec, has_sole_best, judging_order, strength_sum, Contestant, ContestError,
    ContestSummary, Reindeer,
};

verus! {

/// Asking the same thing twice gives the same answer: for each operation, two
/// results that both meet its contract on one input are equal.
pub proof fn lemma_repeated_requests_agree(
    path: Seq<char>,
    cubes: (Result<i64, PacketError>, Result<i64, PacketError>),
    herd: Seq<Reindeer>,
    sums: (int, int),
    text: Seq<char>,
    counts: ((nat, nat, nat), (nat, nat, nat)),
    contestants: Seq<Contestant>,
    summaries: (Result<ContestSummary, ContestError>, Result<ContestSummary, ContestError>),
)
    requires
        cubes.0 == packet_cube_spec(path),
        cubes.1 == packet_cube_spec(path),
        sums.0 == strength_sum(herd),
        sums.1 == strength_sum(herd),
        counts.0 == elf_counts_spec(text),
        counts.1 == elf_counts_spec(text),
        contest_spec(contestants, summaries.0),
        contest_spec(contestants, summaries.1),
    ensures
        cubes.0 == cubes.1,
        sums.0 == sums.1,
        counts.0 == counts.1,
        summaries.0 is Ok <==> summaries.1 is Ok,
        summaries.0 is Ok ==> {
            let (s, t) = (summaries.0->Ok_0, summaries.1->Ok_0);
            &&& s.fastest@ == t.fastest@
            &&& s.tallest@ == t.tallest@
            &&& s.magician@ == t.magician@
            &&& s.consumer@ == t.consumer@
        },
        summaries.0 is Err ==> summaries.0->Err_0 == summaries.1->Err_0,
{
    lemma_contest_answer_unique(contestants, summaries.0, summaries.1);
}

proof fn lemma_contest_answer_unique(
    herd: Seq<Contestant>,
    r1: Result<ContestSummary, ContestError>,
    r2: Result<ContestSummary, ContestError>,
)
    requires
        contest_spec(herd, r1),
        contest_spec(herd, r2),
    ensures
        r1 is Ok <==> r2 is Ok,
        r1 is Err ==> r1->Err_0 == r2->Err_0,
{
    if let (Err(ContestError::Tie(f)), Err(ContestError::Tie(g))) = (r1, r2) {
        if judging_order(f) < judging_order(g) {
            assert(has_sole_best(herd, f));
        } else if judging_order(g) < judging_order(f) {
            assert(has_sole_best(herd, g));
        }
    }
    if let (Ok(_), Err(ContestError::Tie(g))) = (r1, r2) {
        assert(has_sole_best(herd, g));
    }
    if let (Err(ContestError::Tie(f)), Ok(_)) = (r1, r2) {
        assert(has_sole_best(herd, f));
    }
}

} // verus!
