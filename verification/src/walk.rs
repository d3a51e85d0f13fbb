//! The walk back through the filled search table, which reads off what the
//! search has found.

use vstd::prelude::*;
use crate::generate::{carry_bit, trace_of, DpTrace};
use crate::reach::{
    all_done, arrives, differ_at, edge_done, edges_done, entries_differ, entries_ok, entry_ok,
    lemma_reach, lemma_step_six, reached, start_only, table_inv, traces,
};
use crate::results::{
    dp_post, extends, found, lemma_differ_push, lemma_sound_push, lemma_trail_of, results_differ,
    results_sound, trail_of,
};
use crate::sixbit::{cumulative, difference, is_sixes, lemma_cumulative_range, spec_sixs_to_bytes};
use crate::tables::crc8_sum;
use crate::trail::{
    cum_allowed, head_ok, is_trail, lemma_node_advance, lemma_node_frame, lemma_trail_by_steps,
    node_at, step_ok, steps_ok, sum_allowed, Node,
};

verus! {

/// Whether the units `x` are among those that the walk back from `node` at
/// stage `i` looks for: they have the head and the units after stage `i`
/// of `sixs`, and lead to `node` at stage `i` by steps that the search may
/// take.
pub open spec fn in_subtree(
    cums: Seq<Option<u8>>,
    i: int,
    node: Node,
    sixs: Seq<u8>,
    x: Seq<u8>,
) -> bool {
    &&& is_sixes(x)
    &&& x[0] == sixs[0]
    &&& x[1] == sixs[1]
    &&& forall|p: int| i + 2 <= p < 20 ==> #[trigger] x[p] == sixs[p]
    &&& node_at(x, i) == node
    &&& steps_ok(cums, x, 0, i)
}

/// Whether the units `x` take only steps that the search may take from
/// stage `i` on, have a head that the pattern allows, and hold the check
/// byte of what they add to the CRC.
pub open spec fn suffix_ok(cums: Seq<Option<u8>>, x: Seq<u8>, i: int) -> bool {
    &&& steps_ok(cums, x, i, 18)
    &&& head_ok(cums, x)
    &&& crc8_sum(x, 18) == x[0] | (x[1] << 6)
}

/// Whether `sixs` are the units `sixs0` but for those of the first `i`
/// stages of the tail.
pub open spec fn same_frame(sixs0: Seq<u8>, sixs: Seq<u8>, i: int) -> bool {
    &&& is_sixes(sixs)
    &&& forall|p: int| 0 <= p < 20 && (p < 2 || p >= i + 2) ==> #[trigger] sixs[p] == sixs0[p]
}

/// The step back `idx` of `node` at stage `i`, as the walk follows it: the
/// cell it comes from and the units with the unit of the step written in.
pub open spec fn step_back(
    dp: Seq<Vec<DpTrace>>,
    i: int,
    node: Node,
    sixs: Seq<u8>,
    idx: int,
) -> (Node, Seq<u8>) {
    let from = traces(dp, i, node)[idx].node();
    (from, sixs.update(i + 1, difference(from.cum as int, node.cum as int)))
}

/// Whether the units `x` come to `node` at stage `i` from one of the first
/// `idx` steps back of its cell.
pub open spec fn from_earlier(
    dp: Seq<Vec<DpTrace>>,
    i: int,
    node: Node,
    idx: int,
    x: Seq<u8>,
) -> bool {
    exists|a: int| 0 <= a < idx && (#[trigger] traces(dp, i, node)[a]).node() == node_at(x, i - 1)
}

/// What the walk back from `node` at stage `i` may rest on: the table is
/// in order, the search can stand at `node`, what was found before is
/// sound and not what this walk looks for, and what this walk looks for is
/// in order from stage `i` on.
pub open spec fn walk_pre(
    cums: Seq<Option<u8>>,
    dp: Seq<Vec<DpTrace>>,
    start: Node,
    n_max: int,
    i: int,
    node: Node,
    sixs: Seq<u8>,
    results: Seq<[u8; 15]>,
) -> bool {
    &&& table_inv(cums, dp, start, n_max, all_done())
    &&& 0 <= i <= 18
    &&& node.cum < 64
    &&& reached(dp, i, node)
    &&& is_sixes(sixs)
    &&& start == node_at(sixs, 0)
    &&& results.len() < n_max
    &&& results_sound(cums, results, sixs[0], sixs[1])
    &&& results_differ(results)
    &&& forall|x: Seq<u8>| #[trigger] in_subtree(cums, i, node, sixs, x) ==> suffix_ok(cums, x, i)
    &&& forall|r: int|
        0 <= r < results.len() ==> !in_subtree(cums, i, node, sixs, #[trigger] trail_of(results[r]))
}

/// What holds in the middle of the walk back from `node` at stage `i`,
/// when the first `idx` steps back of its cell have been followed.
pub open spec fn walk_mid(
    cums: Seq<Option<u8>>,
    dp: Seq<Vec<DpTrace>>,
    n_max: int,
    i: int,
    node: Node,
    sixs: Seq<u8>,
    before: Seq<[u8; 15]>,
    now: Seq<[u8; 15]>,
    idx: int,
) -> bool {
    &&& extends(before, now)
    &&& before.len() + idx <= now.len() < n_max
    &&& results_sound(cums, now, sixs[0], sixs[1])
    &&& results_differ(now)
    &&& forall|r: int|
        before.len() <= r < now.len() ==> {
            let y = #[trigger] trail_of(now[r]);
            in_subtree(cums, i, node, sixs, y) && from_earlier(dp, i, node, idx, y)
        }
    &&& forall|x: Seq<u8>|
        #[trigger] in_subtree(cums, i, node, sixs, x) && from_earlier(dp, i, node, idx, x)
            ==> found(now, x)
}

/// What the walk back from `node` at stage `i` leaves: more results than
/// before, all sound, different and what the walk looks for; and, unless
/// the results are full, everything that the walk looks for.
pub open spec fn walk_post(
    cums: Seq<Option<u8>>,
    n_max: int,
    i: int,
    node: Node,
    sixs: Seq<u8>,
    before: Seq<[u8; 15]>,
    after: Seq<[u8; 15]>,
    full: bool,
) -> bool {
    &&& extends(before, after)
    &&& before.len() < after.len() <= n_max
    &&& full == (after.len() == n_max)
    &&& results_sound(cums, after, sixs[0], sixs[1])
    &&& results_differ(after)
    &&& forall|r: int|
        before.len() <= r < after.len() ==> in_subtree(
            cums,
            i,
            node,
            sixs,
            #[trigger] trail_of(after[r]),
        )
    &&& !full ==> forall|x: Seq<u8>| #[trigger] in_subtree(cums, i, node, sixs, x)
        ==> found(after, x)
}

/// What the walk looks for depends on the head and on the units after the
/// stage only.
pub proof fn lemma_subtree_frame(
    cums: Seq<Option<u8>>,
    i: int,
    node: Node,
    sixs0: Seq<u8>,
    sixs: Seq<u8>,
    x: Seq<u8>,
)
    requires
        0 <= i <= 18,
        same_frame(sixs0, sixs, i),
    ensures
        in_subtree(cums, i, node, sixs0, x) == in_subtree(cums, i, node, sixs, x),
{
    if in_subtree(cums, i, node, sixs0, x) {
        assert forall|p: int| i + 2 <= p < 20 implies #[trigger] x[p] == sixs[p] by {
            assert(sixs[p] == sixs0[p]);
        }
    }
    if in_subtree(cums, i, node, sixs, x) {
        assert forall|p: int| i + 2 <= p < 20 implies #[trigger] x[p] == sixs0[p] by {
            assert(sixs[p] == sixs0[p]);
        }
    }
}

/// What is looked for one stage further back, behind a step back of the
/// cell, is looked for here, and comes from that step back.
pub proof fn lemma_descend(
    cums: Seq<Option<u8>>,
    dp: Seq<Vec<DpTrace>>,
    start: Node,
    n_max: int,
    i: int,
    node: Node,
    sixs: Seq<u8>,
    idx: int,
    x: Seq<u8>,
)
    requires
        table_inv(cums, dp, start, n_max, all_done()),
        1 <= i <= 18,
        node.cum < 64,
        is_sixes(sixs),
        0 <= idx < traces(dp, i, node).len(),
        in_subtree(
            cums,
            i - 1,
            traces(dp, i, node)[idx].node(),
            sixs.update(
                i + 1,
                difference(traces(dp, i, node)[idx].node().cum as int, node.cum as int),
            ),
            x,
        ),
    ensures
        in_subtree(cums, i, node, sixs, x),
        node_at(x, i - 1) == traces(dp, i, node)[idx].node(),
{
    reveal(entries_ok);
    reveal(arrives);
    let from = traces(dp, i, node)[idx].node();
    let six = difference(from.cum as int, node.cum as int);
    let sixs1 = sixs.update(i + 1, six);
    assert(entry_ok(cums, dp, i, node, idx, all_done()));
    assert(x[i + 1] == sixs1[i + 1]);
    lemma_node_advance(x, i - 1);
    assert forall|p: int| i + 2 <= p < 20 implies #[trigger] x[p] == sixs[p] by {
        assert(x[p] == sixs1[p]);
    }
    assert forall|t: int| 0 <= t < i implies #[trigger] step_ok(cums, x, t) by {
        if t < i - 1 {
            assert(step_ok(cums, x, t));
        }
    }
}

/// What the walk looks for at a node, and comes from the cell `from`, is
/// what it looks for one stage further back at `from`.
pub proof fn lemma_into_step(
    cums: Seq<Option<u8>>,
    i: int,
    node: Node,
    sixs: Seq<u8>,
    from: Node,
    x: Seq<u8>,
)
    requires
        1 <= i <= 18,
        is_sixes(sixs),
        in_subtree(cums, i, node, sixs, x),
        node_at(x, i - 1) == from,
    ensures
        in_subtree(
            cums,
            i - 1,
            from,
            sixs.update(i + 1, difference(from.cum as int, node.cum as int)),
            x,
        ),
{
    let six = x[i + 1];
    lemma_node_advance(x, i - 1);
    lemma_step_six(i - 1, from, six);
    let sixs1 = sixs.update(i + 1, six);
    assert forall|p: int| i + 1 <= p < 20 implies #[trigger] x[p] == sixs1[p] by {
        if p >= i + 2 {
            assert(x[p] == sixs[p]);
        }
    }
    assert forall|t: int| 0 <= t < i - 1 implies #[trigger] step_ok(cums, x, t) by {
        assert(step_ok(cums, x, t));
    }
}

/// What is looked for here is looked for one stage further back, behind
/// one of the steps back of the cell, unless the cell is full.
pub proof fn lemma_ascend(
    cums: Seq<Option<u8>>,
    dp: Seq<Vec<DpTrace>>,
    start: Node,
    n_max: int,
    i: int,
    node: Node,
    sixs: Seq<u8>,
    x: Seq<u8>,
) -> (idx: int)
    requires
        table_inv(cums, dp, start, n_max, all_done()),
        1 <= i <= 18,
        node.cum < 64,
        is_sixes(sixs),
        start == node_at(sixs, 0),
        in_subtree(cums, i, node, sixs, x),
        traces(dp, i, node).len() < n_max,
    ensures
        0 <= idx < traces(dp, i, node).len(),
        traces(dp, i, node)[idx].node() == node_at(x, i - 1),
        in_subtree(
            cums,
            i - 1,
            traces(dp, i, node)[idx].node(),
            sixs.update(
                i + 1,
                difference(traces(dp, i, node)[idx].node().cum as int, node.cum as int),
            ),
            x,
        ),
{
    let from = node_at(x, i - 1);
    let six = x[i + 1];
    lemma_node_frame(x, sixs, 0);
    assert forall|t: int| 0 <= t < i - 1 implies #[trigger] step_ok(cums, x, t) by {
        assert(step_ok(cums, x, t));
    }
    lemma_reach(cums, dp, start, n_max, x, i - 1);
    lemma_node_advance(x, i - 1);
    assert(step_ok(cums, x, i - 1));
    lemma_step_six(i - 1, from, six);
    reveal(edges_done);
    assert(edge_done(cums, dp, n_max, i - 1, from, six));
    let idx = choose|idx: int|
        0 <= idx < traces(dp, i, node).len() && (#[trigger] traces(dp, i, node)[idx]).node()
            == from;
    let sixs1 = sixs.update(i + 1, six);
    assert forall|p: int| i + 1 <= p < 20 implies #[trigger] x[p] == sixs1[p] by {
        if p >= i + 2 {
            assert(x[p] == sixs[p]);
        }
    }
    idx
}

/// At the start of the walk, no step back has been followed.
pub proof fn lemma_begin(
    cums: Seq<Option<u8>>,
    dp: Seq<Vec<DpTrace>>,
    start: Node,
    n_max: int,
    i: int,
    node: Node,
    sixs: Seq<u8>,
    before: Seq<[u8; 15]>,
)
    requires
        walk_pre(cums, dp, start, n_max, i, node, sixs, before),
    ensures
        walk_mid(cums, dp, n_max, i, node, sixs, before, before, 0),
        same_frame(sixs, sixs, i),
{
}

/// The walk may follow the next step back of the cell.
pub proof fn lemma_enter(
    cums: Seq<Option<u8>>,
    dp: Seq<Vec<DpTrace>>,
    start: Node,
    n_max: int,
    i: int,
    node: Node,
    sixs0: Seq<u8>,
    sixs: Seq<u8>,
    before: Seq<[u8; 15]>,
    now: Seq<[u8; 15]>,
    idx: int,
)
    requires
        1 <= i,
        walk_pre(cums, dp, start, n_max, i, node, sixs0, before),
        walk_mid(cums, dp, n_max, i, node, sixs0, before, now, idx),
        same_frame(sixs0, sixs, i),
        0 <= idx < traces(dp, i, node).len(),
    ensures
        walk_pre(
            cums,
            dp,
            start,
            n_max,
            i - 1,
            step_back(dp, i, node, sixs, idx).0,
            step_back(dp, i, node, sixs, idx).1,
            now,
        ),
        traces(dp, i, node)[idx] == trace_of(step_back(dp, i, node, sixs, idx).0),
{
    let from = step_back(dp, i, node, sixs, idx).0;
    let sixs1 = step_back(dp, i, node, sixs, idx).1;
    assert(entry_ok(cums, dp, i, node, idx, all_done())) by {
        reveal(entries_ok);
    }
    lemma_node_frame(sixs1, sixs0, 0);
    assert(sixs1[0] == sixs0[0] && sixs1[1] == sixs0[1]);
    assert forall|x: Seq<u8>| #[trigger] in_subtree(cums, i - 1, from, sixs1, x) implies suffix_ok(
        cums,
        x,
        i - 1,
    ) by {
        lemma_descend(cums, dp, start, n_max, i, node, sixs, idx, x);
        lemma_subtree_frame(cums, i, node, sixs0, sixs, x);
        assert(suffix_ok(cums, x, i));
        assert forall|t: int| i - 1 <= t < 18 implies #[trigger] step_ok(cums, x, t) by {
            if t >= i {
                assert(step_ok(cums, x, t));
            } else {
                assert(step_ok(cums, x, i - 1));
            }
        }
    }
    assert forall|r: int| 0 <= r < now.len() implies !in_subtree(
        cums,
        i - 1,
        from,
        sixs1,
        #[trigger] trail_of(now[r]),
    ) by {
        let y = trail_of(now[r]);
        if in_subtree(cums, i - 1, from, sixs1, y) {
            lemma_descend(cums, dp, start, n_max, i, node, sixs, idx, y);
            lemma_subtree_frame(cums, i, node, sixs0, sixs, y);
            if r < before.len() {
                assert(now[r] == before[r]);
                assert(!in_subtree(cums, i, node, sixs0, trail_of(before[r])));
            } else {
                assert(from_earlier(dp, i, node, idx, y));
                let a = choose|a: int|
                    0 <= a < idx && (#[trigger] traces(dp, i, node)[a]).node() == node_at(y, i - 1);
                assert(differ_at(dp, i, node, a, idx)) by {
                    reveal(entries_differ);
                }
            }
        }
    }
}

/// What following a step back has left is part of what the walk leaves.
pub proof fn lemma_leave(
    cums: Seq<Option<u8>>,
    dp: Seq<Vec<DpTrace>>,
    start: Node,
    n_max: int,
    i: int,
    node: Node,
    sixs0: Seq<u8>,
    sixs: Seq<u8>,
    before: Seq<[u8; 15]>,
    now: Seq<[u8; 15]>,
    after: Seq<[u8; 15]>,
    idx: int,
    full: bool,
)
    requires
        1 <= i,
        walk_pre(cums, dp, start, n_max, i, node, sixs0, before),
        walk_mid(cums, dp, n_max, i, node, sixs0, before, now, idx),
        same_frame(sixs0, sixs, i),
        0 <= idx < traces(dp, i, node).len(),
        walk_post(
            cums,
            n_max,
            i - 1,
            step_back(dp, i, node, sixs, idx).0,
            step_back(dp, i, node, sixs, idx).1,
            now,
            after,
            full,
        ),
    ensures
        full ==> walk_post(cums, n_max, i, node, sixs0, before, after, true),
        !full ==> walk_mid(cums, dp, n_max, i, node, sixs0, before, after, idx + 1),
{
    let from = step_back(dp, i, node, sixs, idx).0;
    let sixs1 = step_back(dp, i, node, sixs, idx).1;
    assert(sixs1[0] == sixs0[0] && sixs1[1] == sixs0[1]);
    assert forall|r: int| before.len() <= r < after.len() implies {
        let y = #[trigger] trail_of(after[r]);
        in_subtree(cums, i, node, sixs0, y) && from_earlier(dp, i, node, idx + 1, y)
    } by {
        let y = trail_of(after[r]);
        if r < now.len() {
            assert(after[r] == now[r]);
            assert(from_earlier(dp, i, node, idx, trail_of(now[r])));
            let a = choose|a: int|
                0 <= a < idx && (#[trigger] traces(dp, i, node)[a]).node() == node_at(y, i - 1);
            assert(traces(dp, i, node)[a].node() == node_at(y, i - 1));
        } else {
            lemma_descend(cums, dp, start, n_max, i, node, sixs, idx, y);
            lemma_subtree_frame(cums, i, node, sixs0, sixs, y);
            assert(traces(dp, i, node)[idx].node() == node_at(y, i - 1));
        }
    }
    if !full {
        assert forall|x: Seq<u8>|
            #[trigger] in_subtree(cums, i, node, sixs0, x) && from_earlier(
                dp,
                i,
                node,
                idx + 1,
                x,
            ) implies found(after, x) by {
            let a = choose|a: int|
                0 <= a < idx + 1 && (#[trigger] traces(dp, i, node)[a]).node() == node_at(x, i - 1);
            if a < idx {
                assert(from_earlier(dp, i, node, idx, x));
                assert(found(now, x));
                let r = choose|r: int| 0 <= r < now.len() && #[trigger] trail_of(now[r]) == x;
                assert(after[r] == now[r]);
                assert(trail_of(after[r]) == x);
            } else {
                lemma_subtree_frame(cums, i, node, sixs0, sixs, x);
                lemma_into_step(cums, i, node, sixs, from, x);
            }
        }
    }
}

/// When every step back of the cell has been followed and the results are
/// not full, the walk has found all it looks for.
pub proof fn lemma_exit(
    cums: Seq<Option<u8>>,
    dp: Seq<Vec<DpTrace>>,
    start: Node,
    n_max: int,
    i: int,
    node: Node,
    sixs0: Seq<u8>,
    before: Seq<[u8; 15]>,
    now: Seq<[u8; 15]>,
)
    requires
        1 <= i,
        walk_pre(cums, dp, start, n_max, i, node, sixs0, before),
        walk_mid(cums, dp, n_max, i, node, sixs0, before, now, traces(dp, i, node).len() as int),
    ensures
        walk_post(cums, n_max, i, node, sixs0, before, now, false),
{
    let len = traces(dp, i, node).len() as int;
    assert forall|x: Seq<u8>| #[trigger] in_subtree(cums, i, node, sixs0, x) implies found(
        now,
        x,
    ) by {
        let a = lemma_ascend(cums, dp, start, n_max, i, node, sixs0, x);
        assert(traces(dp, i, node)[a].node() == node_at(x, i - 1));
        assert(from_earlier(dp, i, node, len, x));
    }
}

/// Before the first unit of the tail the walk has found the units it
/// carries: they are what it looks for, and nothing else is.
pub proof fn lemma_leaf(
    cums: Seq<Option<u8>>,
    dp: Seq<Vec<DpTrace>>,
    start: Node,
    n_max: int,
    node: Node,
    sixs: Seq<u8>,
    before: Seq<[u8; 15]>,
    bytes: [u8; 15],
)
    requires
        walk_pre(cums, dp, start, n_max, 0, node, sixs, before),
        bytes@ == spec_sixs_to_bytes(sixs),
    ensures
        walk_post(
            cums,
            n_max,
            0,
            node,
            sixs,
            before,
            before.push(bytes),
            before.len() + 1 == n_max,
        ),
{
    let after = before.push(bytes);
    lemma_trail_of(sixs, bytes);
    assert(node == start) by {
        reveal(start_only);
    }
    assert(steps_ok(cums, sixs, 0, 0));
    assert(in_subtree(cums, 0, node, sixs, sixs));
    assert(suffix_ok(cums, sixs, 0));
    lemma_trail_by_steps(cums, sixs);
    lemma_sound_push(cums, before, bytes, sixs[0], sixs[1]);
    assert forall|r: int| 0 <= r < before.len() implies #[trigger] trail_of(before[r])
        != trail_of(bytes) by {
        assert(!in_subtree(cums, 0, node, sixs, trail_of(before[r])));
    }
    lemma_differ_push(before, bytes);
    assert forall|x: Seq<u8>| #[trigger] in_subtree(cums, 0, node, sixs, x) implies found(
        after,
        x,
    ) by {
        assert(x =~= sixs);
        assert(trail_of(after[before.len() as int]) == x);
    }
    assert forall|r: int| before.len() <= r < after.len() implies in_subtree(
        cums,
        0,
        node,
        sixs,
        #[trigger] trail_of(after[r]),
    ) by {
        assert(after[r] == bytes);
    }
}

/// The units that are zero but for the head.
pub open spec fn head_sixes(head0: u8, head1: u8) -> Seq<u8> {
    Seq::new(20, |p: int| if p == 0 { head0 } else if p == 1 { head1 } else { 0u8 })
}

/// The place of a cell of the last stage in the order in which the walks
/// back begin.
pub open spec fn end_rank(node: Node) -> int {
    node.cum * 2 + carry_bit(node.carry)
}

/// What the walks back rest on: the table is in order for the search from
/// the head of `sixs`, and the pattern allows that head.
pub open spec fn restore_pre(
    cums: Seq<Option<u8>>,
    dp: Seq<Vec<DpTrace>>,
    start: Node,
    n_max: int,
    sixs: Seq<u8>,
) -> bool {
    &&& table_inv(cums, dp, start, n_max, all_done())
    &&& is_sixes(sixs)
    &&& start == node_at(sixs, 0)
    &&& head_ok(cums, sixs)
}

/// What holds between the walks back, when those from the cells of the
/// last stage before the place `t` are done and the results are not full.
pub open spec fn restore_mid(
    cums: Seq<Option<u8>>,
    head0: u8,
    head1: u8,
    n_max: int,
    results: Seq<[u8; 15]>,
    t: int,
) -> bool {
    &&& results.len() < n_max
    &&& results_sound(cums, results, head0, head1)
    &&& results_differ(results)
    &&& forall|r: int|
        0 <= r < results.len() ==> end_rank(node_at(#[trigger] trail_of(results[r]), 18)) < t
    &&& forall|x: Seq<u8>|
        #[trigger] is_trail(cums, x) && x[0] == head0 && x[1] == head1 && end_rank(node_at(x, 18))
            < t ==> found(results, x)
}

/// Whether the pattern allows the head depends on the head only.
pub proof fn lemma_head_frame(cums: Seq<Option<u8>>, x: Seq<u8>, y: Seq<u8>)
    requires
        x.len() == 20,
        y.len() == 20,
        x[0] == y[0],
        x[1] == y[1],
    ensures
        head_ok(cums, x) == head_ok(cums, y),
        cumulative(x, 0) == cumulative(y, 0),
        cumulative(x, 1) == cumulative(y, 1),
{
    reveal_with_fuel(cumulative, 3);
}

/// Units that the search looks for end in the cell of the last stage that
/// holds their check byte, and the search can stand there.
pub proof fn lemma_trail_end(
    cums: Seq<Option<u8>>,
    dp: Seq<Vec<DpTrace>>,
    start: Node,
    n_max: int,
    sixs: Seq<u8>,
    x: Seq<u8>,
)
    requires
        restore_pre(cums, dp, start, n_max, sixs),
        is_trail(cums, x),
        x[0] == sixs[0],
        x[1] == sixs[1],
    ensures
        node_at(x, 18).crc == sixs[0] | (sixs[1] << 6),
        node_at(x, 18).cum < 64,
        cum_allowed(cums[19], node_at(x, 18).cum as int),
        reached(dp, 18, node_at(x, 18)),
        in_subtree(cums, 18, node_at(x, 18), sixs, x),
{
    lemma_trail_by_steps(cums, x);
    lemma_node_frame(x, sixs, 0);
    lemma_reach(cums, dp, start, n_max, x, 18);
    lemma_cumulative_range(x, 19);
    assert(sum_allowed(cums, x, 19));
}

/// Before the first walk back nothing is found, and nothing is to be found
/// before the first cell that the pattern allows.
pub proof fn lemma_end_begin(
    cums: Seq<Option<u8>>,
    dp: Seq<Vec<DpTrace>>,
    start: Node,
    n_max: int,
    sixs0: Seq<u8>,
    lo: int,
)
    requires
        restore_pre(cums, dp, start, n_max, sixs0),
        forall|c: int| #[trigger] cum_allowed(cums[19], c) ==> lo <= c,
    ensures
        restore_mid(cums, sixs0[0], sixs0[1], n_max, Seq::<[u8; 15]>::empty(), 2 * lo),
        same_frame(sixs0, sixs0, 18),
{
    let results = Seq::<[u8; 15]>::empty();
    reveal(results_sound);
    reveal(results_differ);
    assert forall|x: Seq<u8>|
        #[trigger] is_trail(cums, x) && x[0] == sixs0[0] && x[1] == sixs0[1] && end_rank(
            node_at(x, 18),
        ) < 2 * lo implies found(results, x) by {
        lemma_trail_end(cums, dp, start, n_max, sixs0, x);
    }
}

/// A walk back may begin at a cell of the last stage that holds the check
/// byte of the head, if the search can stand there.
pub proof fn lemma_end_enter(
    cums: Seq<Option<u8>>,
    dp: Seq<Vec<DpTrace>>,
    start: Node,
    n_max: int,
    sixs0: Seq<u8>,
    sixs: Seq<u8>,
    results: Seq<[u8; 15]>,
    node: Node,
)
    requires
        restore_pre(cums, dp, start, n_max, sixs0),
        same_frame(sixs0, sixs, 18),
        restore_mid(cums, sixs0[0], sixs0[1], n_max, results, end_rank(node)),
        node.cum < 64,
        node.crc == sixs0[0] | (sixs0[1] << 6),
        reached(dp, 18, node),
    ensures
        walk_pre(cums, dp, start, n_max, 18, node, sixs, results),
{
    lemma_node_frame(sixs, sixs0, 0);
    assert forall|x: Seq<u8>| #[trigger] in_subtree(cums, 18, node, sixs, x) implies suffix_ok(
        cums,
        x,
        18,
    ) by {
        lemma_head_frame(cums, sixs0, x);
    }
}

/// After a walk back from a cell of the last stage that left the results
/// not full, and past a cell that the search cannot stand at, the walks
/// back from the cells before the next place are done.
pub proof fn lemma_end_leave(
    cums: Seq<Option<u8>>,
    dp: Seq<Vec<DpTrace>>,
    start: Node,
    n_max: int,
    sixs0: Seq<u8>,
    sixs: Seq<u8>,
    before: Seq<[u8; 15]>,
    after: Seq<[u8; 15]>,
    node: Node,
)
    requires
        restore_pre(cums, dp, start, n_max, sixs0),
        same_frame(sixs0, sixs, 18),
        restore_mid(cums, sixs0[0], sixs0[1], n_max, before, end_rank(node)),
        node.cum < 64,
        node.crc == sixs0[0] | (sixs0[1] << 6),
        reached(dp, 18, node) ==> walk_post(cums, n_max, 18, node, sixs, before, after, false),
        !reached(dp, 18, node) ==> after == before,
    ensures
        restore_mid(cums, sixs0[0], sixs0[1], n_max, after, end_rank(node) + 1),
{
    assert(sixs[0] == sixs0[0] && sixs[1] == sixs0[1]);
    assert forall|r: int| 0 <= r < after.len() implies end_rank(
        node_at(#[trigger] trail_of(after[r]), 18),
    ) < end_rank(node) + 1 by {
        if r < before.len() {
            assert(after[r] == before[r]);
            assert(end_rank(node_at(trail_of(before[r]), 18)) < end_rank(node));
        } else {
            assert(in_subtree(cums, 18, node, sixs, trail_of(after[r])));
        }
    }
    assert forall|x: Seq<u8>|
        #[trigger] is_trail(cums, x) && x[0] == sixs0[0] && x[1] == sixs0[1] && end_rank(
            node_at(x, 18),
        ) < end_rank(node) + 1 implies found(after, x) by {
        if end_rank(node_at(x, 18)) < end_rank(node) {
            assert(found(before, x));
            let r = choose|r: int| 0 <= r < before.len() && #[trigger] trail_of(before[r]) == x;
            assert(after[r] == before[r]);
            assert(trail_of(after[r]) == x);
        } else {
            lemma_trail_end(cums, dp, start, n_max, sixs0, x);
            assert(node_at(x, 18) == node);
            lemma_subtree_frame(cums, 18, node, sixs0, sixs, x);
        }
    }
}

/// When the walks back from all cells of the last stage that the pattern
/// allows are done, all that the search looks for is found.
pub proof fn lemma_end_exit(
    cums: Seq<Option<u8>>,
    dp: Seq<Vec<DpTrace>>,
    start: Node,
    n_max: int,
    sixs0: Seq<u8>,
    results: Seq<[u8; 15]>,
    hi: int,
)
    requires
        restore_pre(cums, dp, start, n_max, sixs0),
        restore_mid(cums, sixs0[0], sixs0[1], n_max, results, 2 * hi + 2),
        forall|c: int| #[trigger] cum_allowed(cums[19], c) ==> c <= hi,
    ensures
        dp_post(cums, sixs0[0], sixs0[1], n_max, results),
{
    assert forall|x: Seq<u8>|
        #[trigger] is_trail(cums, x) && x[0] == sixs0[0] && x[1] == sixs0[1] implies found(
        results,
        x,
    ) by {
        lemma_trail_end(cums, dp, start, n_max, sixs0, x);
    }
}

} // verus!
