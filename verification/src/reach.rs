//! What the search table holds while the search fills it: which cells the
//! search can stand at, and by which steps it came there.

use vstd::prelude::*;
use crate::generate::{carry_bit, lemma_trace_of, trace_of, DpTrace, TABLE_CELLS};
use crate::sixbit::{difference, is_sixes};
use crate::trail::{
    advance, cum_allowed, edge_ok, keeps_counts, lemma_node_advance, node_at, step_ok, steps_ok,
    Node,
};

verus! {

/// The cell of a stage that stands for `node`.
pub open spec fn code(node: Node) -> int {
    (node.cum * 256 + node.crc) * 2 + carry_bit(node.carry)
}

/// The cell of the search table that stands for `node` at stage `i`.
pub open spec fn slot(i: int, node: Node) -> int {
    i * 32768 + code(node)
}

/// The place in the order of the search of the step that leads from `node`
/// at stage `i` to the running sum `cum`.
pub open spec fn rank(i: int, node: Node, cum: int) -> int {
    slot(i, node) * 64 + cum
}

/// The steps back that the table holds for `node` at stage `i`.
pub open spec fn traces(dp: Seq<Vec<DpTrace>>, i: int, node: Node) -> Seq<DpTrace> {
    dp[slot(i, node)]@
}

/// Whether the table shows that the search can stand at `node` at stage
/// `i`.
pub open spec fn reached(dp: Seq<Vec<DpTrace>>, i: int, node: Node) -> bool {
    traces(dp, i, node).len() > 0
}

/// Whether the search may step from `from` at stage `i` to `node` at the
/// next stage.
#[verifier::opaque]
pub open spec fn arrives(cums: Seq<Option<u8>>, i: int, from: Node, node: Node) -> bool {
    let six = difference(from.cum as int, node.cum as int);
    edge_ok(cums, i, from, six) && advance(i, from, six) == node
}

/// Whether step back `idx` of `node` at stage `i` is in order: it comes
/// from a cell that the search can stand at, by a step that the search may
/// take and has taken before it came to the place `progress`.
pub open spec fn entry_ok(
    cums: Seq<Option<u8>>,
    dp: Seq<Vec<DpTrace>>,
    i: int,
    node: Node,
    idx: int,
    progress: int,
) -> bool {
    let trace = traces(dp, i, node)[idx];
    let from = trace.node();
    &&& from.cum < 64
    &&& trace == trace_of(from)
    &&& reached(dp, i - 1, from)
    &&& arrives(cums, i - 1, from, node)
    &&& rank(i - 1, from, node.cum as int) < progress
}

/// Whether every step back in the table is in order.
#[verifier::opaque]
pub open spec fn entries_ok(cums: Seq<Option<u8>>, dp: Seq<Vec<DpTrace>>, progress: int) -> bool {
    forall|i: int, node: Node, idx: int|
        1 <= i <= 18 && node.cum < 64 && 0 <= idx < traces(dp, i, node).len()
            ==> #[trigger] entry_ok(cums, dp, i, node, idx, progress)
}

/// Whether steps back `a` and `b` of `node` at stage `i` come from
/// different cells.
pub open spec fn differ_at(dp: Seq<Vec<DpTrace>>, i: int, node: Node, a: int, b: int) -> bool {
    traces(dp, i, node)[a].node() != traces(dp, i, node)[b].node()
}

/// Whether the steps back of each cell come from different cells.
#[verifier::opaque]
pub open spec fn entries_differ(dp: Seq<Vec<DpTrace>>) -> bool {
    forall|i: int, node: Node, a: int, b: int|
        1 <= i <= 18 && node.cum < 64 && 0 <= a < b < traces(dp, i, node).len()
            ==> #[trigger] differ_at(dp, i, node, a, b)
}

/// Whether the cell `node` at stage `i` holds the step back to `from`, or
/// is full.
pub open spec fn listed(dp: Seq<Vec<DpTrace>>, i: int, node: Node, from: Node, n_max: int) -> bool {
    traces(dp, i, node).len() >= n_max || exists|idx: int|
        0 <= idx < traces(dp, i, node).len() && (#[trigger] traces(dp, i, node)[idx]).node() == from
}

/// Whether the step from `from` at stage `i` by the unit `six` has left its
/// mark in the table, if the search can stand at `from` and may take it.
pub open spec fn edge_done(
    cums: Seq<Option<u8>>,
    dp: Seq<Vec<DpTrace>>,
    n_max: int,
    i: int,
    from: Node,
    six: u8,
) -> bool {
    reached(dp, i, from) && edge_ok(cums, i, from, six) ==> listed(
        dp,
        i + 1,
        advance(i, from, six),
        from,
        n_max,
    )
}

/// Whether every step before the place `progress` has left its mark.
#[verifier::opaque]
pub open spec fn edges_done(
    cums: Seq<Option<u8>>,
    dp: Seq<Vec<DpTrace>>,
    n_max: int,
    progress: int,
) -> bool {
    forall|i: int, from: Node, six: u8|
        0 <= i < 18 && from.cum < 64 && six < 64 && rank(i, from, advance(i, from, six).cum as int)
            < progress ==> #[trigger] edge_done(cums, dp, n_max, i, from, six)
}

/// Whether the search can stand at `start` and nowhere else before the
/// first unit of the tail.
#[verifier::opaque]
pub open spec fn start_only(dp: Seq<Vec<DpTrace>>, start: Node) -> bool {
    forall|node: Node| node.cum < 64 ==> (#[trigger] reached(dp, 0, node) <==> node == start)
}

/// Whether no cell holds more than `n_max` steps back.
#[verifier::opaque]
pub open spec fn within_cap(dp: Seq<Vec<DpTrace>>, n_max: int) -> bool {
    forall|s: int| 0 <= s < dp.len() ==> (#[trigger] dp[s])@.len() <= n_max
}

/// What holds of the search table when the search has come to the place
/// `progress`.
pub open spec fn table_inv(
    cums: Seq<Option<u8>>,
    dp: Seq<Vec<DpTrace>>,
    start: Node,
    n_max: int,
    progress: int,
) -> bool {
    &&& dp.len() == TABLE_CELLS
    &&& start.cum < 64
    &&& n_max >= 1
    &&& start_only(dp, start)
    &&& entries_ok(cums, dp, progress)
    &&& entries_differ(dp)
    &&& edges_done(cums, dp, n_max, progress)
    &&& within_cap(dp, n_max)
}

/// The place that the search has come to when every step is taken.
pub open spec fn all_done() -> int {
    37748736
}

/// Whether `after` is the table `before` with one more step back, to
/// `from`, in the cell `d`.
pub open spec fn pushed(
    before: Seq<Vec<DpTrace>>,
    after: Seq<Vec<DpTrace>>,
    d: int,
    from: Node,
) -> bool {
    &&& 0 <= d < before.len()
    &&& after.len() == before.len()
    &&& after[d]@ == before[d]@.push(trace_of(from))
    &&& forall|s: int| 0 <= s < before.len() && s != d ==> #[trigger] after[s] == before[s]
}

/// What the step that the search takes next looks like.
pub open spec fn next_step(
    cums: Seq<Option<u8>>,
    dp: Seq<Vec<DpTrace>>,
    i: int,
    from: Node,
    six: u8,
    progress: int,
) -> bool {
    &&& 0 <= i < 18
    &&& from.cum < 64
    &&& six < 64
    &&& reached(dp, i, from)
    &&& edge_ok(cums, i, from, six)
    &&& progress == rank(i, from, advance(i, from, six).cum as int)
}

/// The cell of a stage tells the node it stands for.
pub proof fn lemma_code_injective(a: Node, b: Node)
    requires
        a.cum < 64,
        b.cum < 64,
        code(a) == code(b),
    ensures
        a == b,
{
}

/// The cell of the table tells the stage and the node it stands for.
pub proof fn lemma_slot_injective(i1: int, a: Node, i2: int, b: Node)
    requires
        a.cum < 64,
        b.cum < 64,
        slot(i1, a) == slot(i2, b),
    ensures
        i1 == i2,
        a == b,
{
}

/// The unit that leads to where a step arrives is the unit of the step.
pub proof fn lemma_step_six(i: int, from: Node, six: u8)
    requires
        from.cum < 64,
        six < 64,
    ensures
        advance(i, from, six).cum < 64,
        difference(from.cum as int, advance(i, from, six).cum as int) == six,
{
}

/// A step that the search may take arrives where it leads.
pub proof fn lemma_arrives(cums: Seq<Option<u8>>, i: int, from: Node, six: u8)
    requires
        from.cum < 64,
        six < 64,
        edge_ok(cums, i, from, six),
    ensures
        arrives(cums, i, from, advance(i, from, six)),
{
    reveal(arrives);
    lemma_step_six(i, from, six);
}

/// The search may pass over steps that it cannot take.
pub proof fn lemma_jump(
    cums: Seq<Option<u8>>,
    dp: Seq<Vec<DpTrace>>,
    start: Node,
    n_max: int,
    progress: int,
    next: int,
)
    requires
        table_inv(cums, dp, start, n_max, progress),
        progress <= next,
        forall|i: int, from: Node, six: u8|
            0 <= i < 18 && from.cum < 64 && six < 64 && progress <= rank(
                i,
                from,
                advance(i, from, six).cum as int,
            ) < next ==> !(reached(dp, i, from) && #[trigger] edge_ok(cums, i, from, six)),
    ensures
        table_inv(cums, dp, start, n_max, next),
{
    reveal(entries_ok);
    reveal(edges_done);
    assert forall|i: int, node: Node, idx: int|
        1 <= i <= 18 && node.cum < 64 && 0 <= idx < traces(dp, i, node).len()
            implies #[trigger] entry_ok(cums, dp, i, node, idx, next) by {
        assert(entry_ok(cums, dp, i, node, idx, progress));
    }
    assert forall|i: int, from: Node, six: u8|
        0 <= i < 18 && from.cum < 64 && six < 64 && rank(i, from, advance(i, from, six).cum as int)
            < next implies #[trigger] edge_done(cums, dp, n_max, i, from, six) by {
        if rank(i, from, advance(i, from, six).cum as int) < progress {
            assert(edge_done(cums, dp, n_max, i, from, six));
        }
    }
}

/// The search may pass over the steps from a cell to running sums that the
/// pattern does not allow, and over all steps from a cell that it cannot
/// stand at.
pub proof fn lemma_jump_range(
    cums: Seq<Option<u8>>,
    dp: Seq<Vec<DpTrace>>,
    start: Node,
    n_max: int,
    i: int,
    from: Node,
    want: Option<u8>,
    lo: int,
    hi: int,
)
    requires
        table_inv(cums, dp, start, n_max, rank(i, from, lo)),
        0 <= i < 18,
        from.cum < 64,
        0 <= lo <= hi <= 64,
        want == cums[i + 2],
        forall|c: int| lo <= c < hi ==> !(reached(dp, i, from) && #[trigger] cum_allowed(want, c)),
    ensures
        table_inv(cums, dp, start, n_max, rank(i, from, hi)),
{
    assert forall|i2: int, from2: Node, six: u8|
        0 <= i2 < 18 && from2.cum < 64 && six < 64 && rank(i, from, lo) <= rank(
            i2,
            from2,
            advance(i2, from2, six).cum as int,
        ) < rank(i, from, hi) implies !(reached(dp, i2, from2) && #[trigger] edge_ok(
        cums,
        i2,
        from2,
        six,
    )) by {
        lemma_step_six(i2, from2, six);
        assert(i2 == i);
        lemma_code_injective(from2, from);
        assert(!(reached(dp, i, from) && cum_allowed(want, advance(i, from, six).cum as int)));
    }
    lemma_jump(cums, dp, start, n_max, rank(i, from, lo), rank(i, from, hi));
}

/// The search may pass over a step that does not keep the counts valid.
pub proof fn lemma_jump_pruned(
    cums: Seq<Option<u8>>,
    dp: Seq<Vec<DpTrace>>,
    start: Node,
    n_max: int,
    i: int,
    from: Node,
    c: int,
)
    requires
        table_inv(cums, dp, start, n_max, rank(i, from, c)),
        0 <= i < 18,
        from.cum < 64,
        0 <= c < 64,
        !keeps_counts(i, from.carry, difference(from.cum as int, c)),
    ensures
        table_inv(cums, dp, start, n_max, rank(i, from, c + 1)),
{
    assert forall|i2: int, from2: Node, six: u8|
        0 <= i2 < 18 && from2.cum < 64 && six < 64 && rank(i, from, c) <= rank(
            i2,
            from2,
            advance(i2, from2, six).cum as int,
        ) < rank(i, from, c + 1) implies !(reached(dp, i2, from2) && #[trigger] edge_ok(
        cums,
        i2,
        from2,
        six,
    )) by {
        lemma_step_six(i2, from2, six);
        assert(i2 == i);
        lemma_code_injective(from2, from);
    }
    lemma_jump(cums, dp, start, n_max, rank(i, from, c), rank(i, from, c + 1));
}

/// A step back that was in order before another was written down still is.
pub proof fn lemma_entry_kept(
    cums: Seq<Option<u8>>,
    dp: Seq<Vec<DpTrace>>,
    dp2: Seq<Vec<DpTrace>>,
    d: int,
    pushed_from: Node,
    i: int,
    node: Node,
    idx: int,
    progress: int,
)
    requires
        dp.len() == TABLE_CELLS,
        pushed(dp, dp2, d, pushed_from),
        1 <= i <= 18,
        node.cum < 64,
        0 <= idx < traces(dp, i, node).len(),
        entry_ok(cums, dp, i, node, idx, progress),
    ensures
        entry_ok(cums, dp2, i, node, idx, progress + 1),
{
    let back = traces(dp, i, node)[idx].node();
    if slot(i, node) != d {
        assert(dp2[slot(i, node)] == dp[slot(i, node)]);
    }
    if slot(i - 1, back) != d {
        assert(dp2[slot(i - 1, back)] == dp[slot(i - 1, back)]);
    }
}

/// The step back that was written down last is in order.
pub proof fn lemma_entry_new(
    cums: Seq<Option<u8>>,
    dp: Seq<Vec<DpTrace>>,
    dp2: Seq<Vec<DpTrace>>,
    i: int,
    from: Node,
    six: u8,
    progress: int,
)
    requires
        dp.len() == TABLE_CELLS,
        next_step(cums, dp, i, from, six, progress),
        pushed(dp, dp2, slot(i + 1, advance(i, from, six)), from),
    ensures
        entry_ok(
            cums,
            dp2,
            i + 1,
            advance(i, from, six),
            traces(dp, i + 1, advance(i, from, six)).len() as int,
            progress + 1,
        ),
{
    let dest = advance(i, from, six);
    lemma_step_six(i, from, six);
    lemma_trace_of(from);
    lemma_arrives(cums, i, from, six);
    if slot(i, from) == slot(i + 1, dest) {
        lemma_slot_injective(i, from, i + 1, dest);
    }
    assert(dp2[slot(i, from)] == dp[slot(i, from)]);
}

pub proof fn lemma_push_entries(
    cums: Seq<Option<u8>>,
    dp: Seq<Vec<DpTrace>>,
    dp2: Seq<Vec<DpTrace>>,
    i: int,
    from: Node,
    six: u8,
    progress: int,
)
    requires
        dp.len() == TABLE_CELLS,
        entries_ok(cums, dp, progress),
        next_step(cums, dp, i, from, six, progress),
        pushed(dp, dp2, slot(i + 1, advance(i, from, six)), from),
    ensures
        entries_ok(cums, dp2, progress + 1),
{
    reveal(entries_ok);
    let dest = advance(i, from, six);
    let d = slot(i + 1, dest);
    lemma_step_six(i, from, six);
    assert forall|i2: int, node: Node, idx: int|
        1 <= i2 <= 18 && node.cum < 64 && 0 <= idx < traces(dp2, i2, node).len()
            implies #[trigger] entry_ok(cums, dp2, i2, node, idx, progress + 1) by {
        if slot(i2, node) == d && idx >= traces(dp, i2, node).len() {
            lemma_slot_injective(i2, node, i + 1, dest);
            lemma_entry_new(cums, dp, dp2, i, from, six, progress);
        } else {
            if slot(i2, node) != d {
                assert(dp2[slot(i2, node)] == dp[slot(i2, node)]);
            }
            assert(entry_ok(cums, dp, i2, node, idx, progress));
            lemma_entry_kept(cums, dp, dp2, d, from, i2, node, idx, progress);
        }
    }
}

pub proof fn lemma_push_differ(
    cums: Seq<Option<u8>>,
    dp: Seq<Vec<DpTrace>>,
    dp2: Seq<Vec<DpTrace>>,
    i: int,
    from: Node,
    six: u8,
    progress: int,
)
    requires
        dp.len() == TABLE_CELLS,
        entries_ok(cums, dp, progress),
        entries_differ(dp),
        next_step(cums, dp, i, from, six, progress),
        pushed(dp, dp2, slot(i + 1, advance(i, from, six)), from),
    ensures
        entries_differ(dp2),
{
    reveal(entries_ok);
    reveal(entries_differ);
    let dest = advance(i, from, six);
    let d = slot(i + 1, dest);
    lemma_step_six(i, from, six);
    lemma_trace_of(from);
    assert forall|i2: int, node: Node, a: int, b: int|
        1 <= i2 <= 18 && node.cum < 64 && 0 <= a < b < traces(dp2, i2, node).len()
            implies #[trigger] differ_at(dp2, i2, node, a, b) by {
        if slot(i2, node) == d {
            lemma_slot_injective(i2, node, i + 1, dest);
            if b < traces(dp, i2, node).len() {
                assert(differ_at(dp, i2, node, a, b));
            } else {
                assert(entry_ok(cums, dp, i2, node, a, progress));
                let other = traces(dp, i2, node)[a].node();
                assert(rank(i, other, dest.cum as int) < rank(i, from, dest.cum as int));
                assert(other != from);
                assert(traces(dp2, i2, node)[b] == trace_of(from));
            }
        } else {
            assert(dp2[slot(i2, node)] == dp[slot(i2, node)]);
            assert(differ_at(dp, i2, node, a, b));
        }
    }
}

pub proof fn lemma_push_edges(
    cums: Seq<Option<u8>>,
    dp: Seq<Vec<DpTrace>>,
    dp2: Seq<Vec<DpTrace>>,
    start: Node,
    n_max: int,
    i: int,
    from: Node,
    six: u8,
    progress: int,
)
    requires
        table_inv(cums, dp, start, n_max, progress),
        next_step(cums, dp, i, from, six, progress),
        pushed(dp, dp2, slot(i + 1, advance(i, from, six)), from),
    ensures
        edges_done(cums, dp2, n_max, progress + 1),
{
    reveal(edges_done);
    let dest = advance(i, from, six);
    let d = slot(i + 1, dest);
    lemma_step_six(i, from, six);
    lemma_trace_of(from);
    assert forall|i2: int, from2: Node, six2: u8|
        0 <= i2 < 18 && from2.cum < 64 && six2 < 64 && rank(
            i2,
            from2,
            advance(i2, from2, six2).cum as int,
        ) < progress + 1 implies #[trigger] edge_done(cums, dp2, n_max, i2, from2, six2) by {
        let dest2 = advance(i2, from2, six2);
        lemma_step_six(i2, from2, six2);
        if rank(i2, from2, dest2.cum as int) < progress {
            assert(edge_done(cums, dp, n_max, i2, from2, six2));
            assert(dp2[slot(i2, from2)] == dp[slot(i2, from2)]);
            if reached(dp, i2, from2) && edge_ok(cums, i2, from2, six2) {
                if slot(i2 + 1, dest2) == d {
                    if traces(dp, i2 + 1, dest2).len() < n_max {
                        let at = choose|idx: int|
                            0 <= idx < traces(dp, i2 + 1, dest2).len() && (#[trigger] traces(
                                dp,
                                i2 + 1,
                                dest2,
                            )[idx]).node() == from2;
                        assert(traces(dp2, i2 + 1, dest2)[at].node() == from2);
                    }
                } else {
                    assert(dp2[slot(i2 + 1, dest2)] == dp[slot(i2 + 1, dest2)]);
                }
            }
        } else {
            assert(i2 == i);
            lemma_code_injective(from2, from);
            assert(six2 == six);
            let last = traces(dp, i + 1, dest).len() as int;
            assert(traces(dp2, i + 1, dest)[last].node() == from);
        }
    }
}

/// Writing down the step that the search takes next keeps the table in
/// order and brings the search one place on.
pub proof fn lemma_push(
    cums: Seq<Option<u8>>,
    dp: Seq<Vec<DpTrace>>,
    dp2: Seq<Vec<DpTrace>>,
    start: Node,
    n_max: int,
    i: int,
    from: Node,
    six: u8,
    progress: int,
)
    requires
        table_inv(cums, dp, start, n_max, progress),
        next_step(cums, dp, i, from, six, progress),
        pushed(dp, dp2, slot(i + 1, advance(i, from, six)), from),
        traces(dp, i + 1, advance(i, from, six)).len() < n_max,
    ensures
        table_inv(cums, dp2, start, n_max, progress + 1),
{
    reveal(start_only);
    reveal(within_cap);
    let dest = advance(i, from, six);
    let d = slot(i + 1, dest);
    lemma_step_six(i, from, six);
    lemma_push_entries(cums, dp, dp2, i, from, six, progress);
    lemma_push_differ(cums, dp, dp2, i, from, six, progress);
    lemma_push_edges(cums, dp, dp2, start, n_max, i, from, six, progress);
    assert forall|node: Node| node.cum < 64 implies (#[trigger] reached(dp2, 0, node) <==> node
        == start) by {
        assert(dp2[slot(0, node)] == dp[slot(0, node)]);
        assert(reached(dp, 0, node) <==> node == start);
    }
    assert forall|s: int| 0 <= s < dp2.len() implies (#[trigger] dp2[s])@.len() <= n_max by {
        if s != d {
            assert(dp2[s] == dp[s]);
        }
        assert(dp[s]@.len() <= n_max);
    }
}

/// Leaving out a step that would lead to a full cell keeps the table in
/// order and brings the search one place on.
pub proof fn lemma_full(
    cums: Seq<Option<u8>>,
    dp: Seq<Vec<DpTrace>>,
    start: Node,
    n_max: int,
    i: int,
    from: Node,
    six: u8,
    progress: int,
)
    requires
        table_inv(cums, dp, start, n_max, progress),
        next_step(cums, dp, i, from, six, progress),
        traces(dp, i + 1, advance(i, from, six)).len() >= n_max,
    ensures
        table_inv(cums, dp, start, n_max, progress + 1),
{
    reveal(entries_ok);
    reveal(edges_done);
    lemma_step_six(i, from, six);
    assert forall|i2: int, node: Node, idx: int|
        1 <= i2 <= 18 && node.cum < 64 && 0 <= idx < traces(dp, i2, node).len()
            implies #[trigger] entry_ok(cums, dp, i2, node, idx, progress + 1) by {
        assert(entry_ok(cums, dp, i2, node, idx, progress));
    }
    assert forall|i2: int, from2: Node, six2: u8|
        0 <= i2 < 18 && from2.cum < 64 && six2 < 64 && rank(
            i2,
            from2,
            advance(i2, from2, six2).cum as int,
        ) < progress + 1 implies #[trigger] edge_done(cums, dp, n_max, i2, from2, six2) by {
        lemma_step_six(i2, from2, six2);
        if rank(i2, from2, advance(i2, from2, six2).cum as int) < progress {
            assert(edge_done(cums, dp, n_max, i2, from2, six2));
        } else {
            assert(i2 == i);
            lemma_code_injective(from2, from);
            assert(six2 == six);
        }
    }
}

/// A table that holds nothing but one step back in the cell of `start`,
/// before the first unit of the tail, is in order before the first step of
/// the search.
pub proof fn lemma_new_table(cums: Seq<Option<u8>>, dp: Seq<Vec<DpTrace>>, start: Node, n_max: int)
    requires
        dp.len() == TABLE_CELLS,
        start.cum < 64,
        n_max >= 1,
        dp[slot(0, start)]@.len() == 1,
        forall|s: int| 0 <= s < dp.len() && s != slot(0, start) ==> (#[trigger] dp[s])@.len() == 0,
    ensures
        table_inv(cums, dp, start, n_max, 0),
{
    reveal(entries_ok);
    reveal(entries_differ);
    reveal(edges_done);
    reveal(start_only);
    reveal(within_cap);
    assert forall|node: Node| node.cum < 64 implies (#[trigger] reached(dp, 0, node) <==> node
        == start) by {
        if node != start {
            if code(node) == code(start) {
                lemma_code_injective(node, start);
            }
            assert(dp[slot(0, node)]@.len() == 0);
        }
    }
    assert forall|i: int, node: Node, idx: int|
        1 <= i <= 18 && node.cum < 64 && 0 <= idx < traces(dp, i, node).len()
            implies #[trigger] entry_ok(cums, dp, i, node, idx, 0) by {
        assert(dp[slot(i, node)]@.len() == 0);
    }
    assert forall|i: int, node: Node, a: int, b: int|
        1 <= i <= 18 && node.cum < 64 && 0 <= a < b < traces(dp, i, node).len()
            implies #[trigger] differ_at(dp, i, node, a, b) by {
        assert(dp[slot(i, node)]@.len() == 0);
    }
}

/// The search can stand wherever units lead that take only steps it may
/// take.
pub proof fn lemma_reach(
    cums: Seq<Option<u8>>,
    dp: Seq<Vec<DpTrace>>,
    start: Node,
    n_max: int,
    x: Seq<u8>,
    i: int,
)
    requires
        table_inv(cums, dp, start, n_max, all_done()),
        is_sixes(x),
        node_at(x, 0) == start,
        0 <= i <= 18,
        steps_ok(cums, x, 0, i),
    ensures
        reached(dp, i, node_at(x, i)),
    decreases i,
{
    if i == 0 {
        reveal(start_only);
    } else {
        lemma_reach(cums, dp, start, n_max, x, i - 1);
        lemma_node_advance(x, i - 1);
        let from = node_at(x, i - 1);
        let six = x[i + 1];
        assert(step_ok(cums, x, i - 1));
        lemma_step_six(i - 1, from, six);
        reveal(edges_done);
        assert(edge_done(cums, dp, n_max, i - 1, from, six));
    }
}

} // verus!
