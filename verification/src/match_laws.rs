use vstd::prelude::*;
use crate::board::Board;

verus! {

/// Among the runs `ms`, one holding a square that the player just swapped
/// is followed by no horizontal run free of such squares: the last word on
/// the pass's outcome goes to a swapped square.
pub open spec fn touched_run_stands(b: Board, ms: Seq<(bool, int, int, int)>) -> bool {
    exists|i: int|
        0 <= i < ms.len() && #[trigger] b.run_touched(ms[i]) && forall|j: int|
            i < j < ms.len() ==> !((#[trigger] ms[j]).0 && !b.run_touched(ms[j]))
}

proof fn lemma_match_flag(b: Board, ms: Seq<(bool, int, int, int)>)
    ensures
        b.match_flag(ms) is None <==> ms.len() == 0,
        b.match_flag(ms) == Some(false) <==> touched_run_stands(b, ms),
    decreases ms.len(),
{
    if ms.len() > 0 {
        let prev = ms.drop_last();
        lemma_match_flag(b, prev);
        let m = ms.last();
        let n = ms.len() - 1;
        if b.run_touched(m) {
            assert(b.run_touched(ms[n]));
        } else if m.0 {
            if touched_run_stands(b, ms) {
                let i = choose|i: int|
                    0 <= i < ms.len() && #[trigger] b.run_touched(ms[i]) && forall|j: int|
                        i < j < ms.len() ==> !((#[trigger] ms[j]).0 && !b.run_touched(ms[j]));
                assert(i != n);
                assert(!((ms[n]).0 && !b.run_touched(ms[n])));
            }
        } else {
            if touched_run_stands(b, ms) {
                let i = choose|i: int|
                    0 <= i < ms.len() && #[trigger] b.run_touched(ms[i]) && forall|j: int|
                        i < j < ms.len() ==> !((#[trigger] ms[j]).0 && !b.run_touched(ms[j]));
                assert(i != n);
                assert(prev[i] == ms[i]);
                assert forall|j: int| i < j < prev.len() implies !((#[trigger] prev[j]).0
                    && !b.run_touched(prev[j])) by {
                    assert(prev[j] == ms[j]);
                }
                assert(touched_run_stands(b, prev));
            }
            if touched_run_stands(b, prev) {
                let i = choose|i: int|
                    0 <= i < prev.len() && #[trigger] b.run_touched(prev[i]) && forall|j: int|
                        i < j < prev.len() ==> !((#[trigger] prev[j]).0 && !b.run_touched(prev[j]));
                assert(ms[i] == prev[i]);
                assert forall|j: int| i < j < ms.len() implies !((#[trigger] ms[j]).0
                    && !b.run_touched(ms[j])) by {
                    if j < prev.len() {
                        assert(prev[j] == ms[j]);
                    }
                }
                assert(touched_run_stands(b, ms));
            }
        }
    }
}

/// How a match pass leaves the chain: with no match the chain is as it
/// was; where a run holding a square that the player just swapped is not
/// followed by a horizontal run free of such squares (a vertical run counts
/// as much as a horizontal one), the chain ends; otherwise a match goes on
/// with the chain (starting it at 2) where something fell or died in this
/// frame, and ends it where nothing did.
pub proof fn law_swapped_match_ends_the_chain(b1: Board, b2: Board, dirs: Seq<u32>)
    requires
        Board::matches_pass(b1, b2, dirs),
    ensures
        b1.all_runs().len() == 0 ==> b2.chain == b1.chain,
        touched_run_stands(b1, b1.all_runs()) ==> b2.chain.spec_value() == None::<u32>,
        b1.all_runs().len() > 0 && !touched_run_stands(b1, b1.all_runs()) && b1.chains_valid
            ==> b2.chain.spec_value() == Some(
            (match b1.chain.spec_value() {
                Some(v) => v + 1,
                None => 2,
            }) as u32,
        ),
        b1.all_runs().len() > 0 && !touched_run_stands(b1, b1.all_runs()) && !b1.chains_valid
            ==> b2.chain.spec_value() == None::<u32>,
{
    lemma_match_flag(b1, b1.all_runs());
}

} // verus!
