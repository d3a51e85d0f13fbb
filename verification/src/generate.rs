//! The search for the passwords that match a pattern and decode.

use vstd::prelude::*;
use crate::alphabet::password_char_to_cum;
use crate::encode::{bytes_to_password, spec_bytes_to_password};
use crate::error::Dq1PasswordResult;
use crate::normalize::{is_pattern, normalize_pattern, spec_normalize_pattern};
use crate::reach::{
    all_done, lemma_full, lemma_jump_pruned, lemma_jump_range, lemma_new_table, lemma_push, pushed,
    rank, reached, slot, table_inv, within_cap,
};
use crate::results::{
    all_sound, dp_post, found, head_rank, lemma_generated, lemma_head_done, lemma_head_of,
    lemma_head_skip, results_differ, search_mid, search_post,
};
use crate::sixbit::{
    cumulative, lemma_cumulative_of_difference, next_cum, six_between, sixs_to_bytes,
};
use crate::tables::{crc8_table_head, crc8_table_tail, spec_crc8_head, spec_crc8_tail};
use crate::text::chars_of;
use crate::trail::{
    advance, cum_allowed, edge_ok, head_ok, is_solution, is_trail, node_at, pattern_cums,
    sum_allowed, Node,
};
use crate::walk::{
    head_sixes, lemma_begin, lemma_end_begin, lemma_end_enter, lemma_end_exit, lemma_end_leave,
    lemma_enter, lemma_exit, lemma_leaf, lemma_leave, restore_mid, restore_pre, same_frame,
    step_back, walk_mid, walk_post, walk_pre,
};

verus! {

/// What a search for a pattern may return, when it is to return no more
/// than `n_max` passwords: passwords that are in canonical form, match the
/// pattern and decode; no password twice; and, unless there are `n_max` of
/// them, every such password.
pub open spec fn is_generated(pattern: Seq<char>, n_max: int, passwords: Seq<String>) -> bool {
    &&& passwords.len() <= n_max
    &&& forall|i: int| 0 <= i < passwords.len() ==> is_solution(pattern, #[trigger] passwords[i]@)
    &&& forall|a: int, b: int|
        0 <= a < b < passwords.len() ==> #[trigger] passwords[a]@ != #[trigger] passwords[b]@
    &&& passwords.len() < n_max ==> forall|password: Seq<char>|
        #[trigger] is_solution(pattern, password) ==> exists|i: int|
            0 <= i < passwords.len() && #[trigger] passwords[i]@ == password
}

/// Finds passwords that match a pattern and decode. In the pattern `?`,
/// or its full-width form, stands for any symbol; white space is left out.
/// No more than `n_max` passwords are returned, and none twice; where
/// fewer are returned, there are no others. A pattern that has no
/// canonical form is an invalid pattern.
pub fn generate(pattern: &str, n_max: usize) -> (r: Dq1PasswordResult<Vec<String>>)
    ensures
        match spec_normalize_pattern(pattern@) {
            Ok(normal) => r matches Ok(passwords) && is_generated(
                normal,
                n_max as int,
                passwords@,
            ),
            Err(kind) => r matches Err(error) && error.kind() == kind,
        },
{
    let normal = normalize_pattern(pattern)?;
    let cums = pattern_to_cums(normal.as_str());
    let tail_table = crc8_table_tail();
    let head_table = crc8_table_head();
    let bytess = search(&cums, n_max, &tail_table, &head_table);
    let mut passwords: Vec<String> = Vec::with_capacity(bytess.len());
    let mut r: usize = 0;
    while r < bytess.len()
        invariant
            r <= bytess.len(),
            passwords.len() == r,
            forall|q: int|
                0 <= q < r ==> (#[trigger] passwords@[q])@ == spec_bytes_to_password(bytess@[q]@),
        decreases bytess.len() - r,
    {
        passwords.push(bytes_to_password(&bytess[r]));
        r += 1;
    }
    proof {
        lemma_generated(normal@, n_max as int, bytess@, passwords@);
    }
    Ok(passwords)
}

/// Reads a pattern in canonical form as the search does: at each position
/// the index that the symbol must have, or nothing at a wildcard.
fn pattern_to_cums(pattern: &str) -> (cums: [Option<u8>; 20])
    requires
        is_pattern(pattern@),
    ensures
        cums@ == pattern_cums(pattern@),
        is_cums(cums@),
{
    let cs = chars_of(pattern);
    let mut cums: [Option<u8>; 20] = [None; 20];
    let mut i: usize = 0;
    while i < 20
        invariant
            i <= 20,
            cs@ == pattern@,
            pattern@.len() == 20,
            forall|k: int| 0 <= k < i ==> #[trigger] cums@[k] == pattern_cums(pattern@)[k],
            forall|k: int| 0 <= k < i ==> ((#[trigger] cums@[k]) matches Some(index)
                ==> index < 64),
            forall|k: int| i <= k < 20 ==> (#[trigger] cums@[k]) is None,
        decreases 20 - i,
    {
        cums[i] = password_char_to_cum(cs[i]);
        i += 1;
    }
    assert(cums@ == pattern_cums(pattern@));
    cums
}

/// Searches from each head that the pattern allows, in order, until
/// `n_max` buffers are found.
fn search(
    cums: &[Option<u8>; 20],
    n_max: usize,
    tail_table: &[[u8; 64]; 18],
    head_table: &[u8; 16],
) -> (bytess: Vec<[u8; 15]>)
    requires
        is_cums(cums@),
        is_tail_table(*tail_table),
        is_head_table(*head_table),
    ensures
        search_post(cums@, n_max as int, bytess@),
{
    let mut bytess: Vec<[u8; 15]> = Vec::new();
    let mut n_remain = n_max;
    let range0 = cum_range(cums[0]);
    let range1 = cum_range(cums[1]);
    let mut cum0 = range0.0;
    proof {
        reveal(all_sound);
        reveal(results_differ);
        assert(search_mid(cums@, n_max as int, bytess@, 0));
        assert forall|x: Seq<u8>| #[trigger] is_trail(cums@, x) implies !(0 <= head_rank(x) < cum0
            * 64 + range1.0) by {
            lemma_head_of(x);
            assert(sum_allowed(cums@, x, 0));
            assert(sum_allowed(cums@, x, 1));
        }
        lemma_head_skip(cums@, n_max as int, bytess@, 0, cum0 * 64 + range1.0);
    }
    while cum0 <= range0.1
        invariant
            is_cums(cums@),
            is_tail_table(*tail_table),
            is_head_table(*head_table),
            range0.0 <= cum0 <= range0.1 + 1,
            range0.1 < 64,
            range1.0 <= range1.1 < 64,
            forall|c: int| #[trigger] cum_allowed(cums@[0], c) <==> range0.0 <= c <= range0.1,
            forall|c: int| #[trigger] cum_allowed(cums@[1], c) <==> range1.0 <= c <= range1.1,
            n_remain + bytess.len() == n_max,
            search_mid(cums@, n_max as int, bytess@, cum0 * 64 + range1.0),
        decreases range0.1 + 1 - cum0,
    {
        let mut cum1 = range1.0;
        while cum1 <= range1.1
            invariant
                is_cums(cums@),
                is_tail_table(*tail_table),
                is_head_table(*head_table),
                range0.0 <= cum0 <= range0.1,
                range0.1 < 64,
                range1.0 <= cum1 <= range1.1 + 1,
                range1.1 < 64,
                forall|c: int| #[trigger] cum_allowed(cums@[0], c) <==> range0.0 <= c <= range0.1,
                forall|c: int| #[trigger] cum_allowed(cums@[1], c) <==> range1.0 <= c <= range1.1,
                n_remain + bytess.len() == n_max,
                search_mid(cums@, n_max as int, bytess@, cum0 * 64 + cum1),
            decreases range1.1 + 1 - cum1,
        {
            if n_remain == 0 {
                return bytess;
            }
            let sixs_head = [six_between(0, cum0), six_between(cum0, cum1)];
            proof {
                lemma_cumulative_of_difference(0, cum0 as int);
                lemma_cumulative_of_difference(cum0 as int, cum1 as int);
                reveal_with_fuel(cumulative, 3);
                assert(head_ok(cums@, head_sixes(sixs_head[0], sixs_head[1])));
            }
            let mut partial = generate_dp(sixs_head, cums, n_remain, tail_table, head_table);
            let ghost before = bytess@;
            let ghost found_now = partial@;
            n_remain -= partial.len();
            bytess.append(&mut partial);
            proof {
                lemma_head_done(
                    cums@,
                    n_max as int,
                    before,
                    found_now,
                    cum0 as int,
                    cum1 as int,
                );
            }
            cum1 += 1;
        }
        proof {
            assert forall|x: Seq<u8>| #[trigger] is_trail(cums@, x) implies !(cum0 * 64 + cum1
                <= head_rank(x) < (cum0 + 1) * 64 + range1.0) by {
                lemma_head_of(x);
                assert(sum_allowed(cums@, x, 0));
                assert(sum_allowed(cums@, x, 1));
            }
            lemma_head_skip(
                cums@,
                n_max as int,
                bytess@,
                cum0 * 64 + cum1,
                (cum0 + 1) * 64 + range1.0,
            );
        }
        cum0 += 1;
    }
    proof {
        if bytess.len() < n_max {
            assert forall|x: Seq<u8>| #[trigger] is_trail(cums@, x) implies found(bytess@, x) by {
                lemma_head_of(x);
                assert(sum_allowed(cums@, x, 0));
                assert(sum_allowed(cums@, x, 1));
            }
        }
    }
    bytess
}

/// Finds buffers whose first two units are `sixs_head`, whose password
/// matches the pattern and which hold valid counts and their own check
/// byte: the buffers of all units that the search looks for with that
/// head, or `n_max` of them. The search table is filled forward from the
/// head, and walked back from its last stage.
fn generate_dp(
    sixs_head: [u8; 2],
    cums: &[Option<u8>; 20],
    n_max: usize,
    tail_table: &[[u8; 64]; 18],
    head_table: &[u8; 16],
) -> (bytess: Vec<[u8; 15]>)
    requires
        n_max >= 1,
        is_cums(cums@),
        is_tail_table(*tail_table),
        is_head_table(*head_table),
        sixs_head[0] < 64,
        sixs_head[1] < 64,
        head_ok(cums@, head_sixes(sixs_head[0], sixs_head[1])),
    ensures
        dp_post(cums@, sixs_head[0], sixs_head[1], n_max as int, bytess@),
{
    let ghost sixs0 = Seq::new(20, |p: int| if p < 2 { sixs_head[p] } else { 0u8 });
    proof {
        assert(sixs0 == head_sixes(sixs_head[0], sixs_head[1]));
        lemma_upper_bits(sixs_head[1]);
        reveal_with_fuel(cumulative, 3);
    }
    let cum_ini = next_cum(next_cum(0, sixs_head[0]), sixs_head[1]);
    let crc_ini = head_table[(sixs_head[1] >> 2) as usize];
    let ghost start = Node { cum: cum_ini, crc: crc_ini, carry: false };
    assert(start == node_at(sixs0, 0));
    let mut dp = new_table(cell_index(0, cum_ini, crc_ini, 0));
    proof {
        lemma_new_table(cums@, dp@, start, n_max as int);
    }
    fill_table(&mut dp, cums, tail_table, n_max, Ghost(start));
    generate_dp_restore(sixs_head, cums, n_max, &dp, Ghost(start))
}

/// Takes every step of the search, stage by stage and cell by cell.
fn fill_table(
    dp: &mut Vec<Vec<DpTrace>>,
    cums: &[Option<u8>; 20],
    tail_table: &[[u8; 64]; 18],
    n_max: usize,
    Ghost(start): Ghost<Node>,
)
    requires
        is_cums(cums@),
        is_tail_table(*tail_table),
        table_inv(cums@, old(dp)@, start, n_max as int, 0),
    ensures
        table_inv(cums@, final(dp)@, start, n_max as int, all_done()),
{
    let mut i: usize = 0;
    while i < 18
        invariant
            i <= 18,
            is_cums(cums@),
            is_tail_table(*tail_table),
            table_inv(cums@, dp@, start, n_max as int, i * 32768 * 64),
        decreases 18 - i,
    {
        let mut q: usize = 0;
        while q < STAGE_CELLS
            invariant
                i < 18,
                q <= STAGE_CELLS,
                is_cums(cums@),
                is_tail_table(*tail_table),
                table_inv(cums@, dp@, start, n_max as int, (i * 32768 + q) * 64),
            decreases STAGE_CELLS - q,
        {
            let j = (q / 512) as u8;
            let k = ((q / 2) % 256) as u8;
            let l = (q % 2) as u8;
            let ghost from = Node { cum: j, crc: k, carry: l == 1 };
            assert(slot(i as int, from) == i * 32768 + q);
            if dp[i * STAGE_CELLS + q].len() > 0 {
                relax_from(dp, cums, tail_table, n_max, i, j, k, l, Ghost(start));
            } else {
                proof {
                    lemma_jump_range(
                        cums@,
                        dp@,
                        start,
                        n_max as int,
                        i as int,
                        from,
                        cums@[i + 2],
                        0,
                        64,
                    );
                }
            }
            q += 1;
        }
        i += 1;
    }
}

/// Takes every step that the search may take from one cell that it can
/// stand at, and writes each down in the cell it leads to, unless that
/// cell is full.
fn relax_from(
    dp: &mut Vec<Vec<DpTrace>>,
    cums: &[Option<u8>; 20],
    tail_table: &[[u8; 64]; 18],
    n_max: usize,
    i: usize,
    j: u8,
    k: u8,
    l: u8,
    Ghost(start): Ghost<Node>,
)
    requires
        i < 18,
        j < 64,
        l <= 1,
        is_cums(cums@),
        is_tail_table(*tail_table),
        reached(old(dp)@, i as int, Node { cum: j, crc: k, carry: l == 1 }),
        table_inv(
            cums@,
            old(dp)@,
            start,
            n_max as int,
            rank(i as int, Node { cum: j, crc: k, carry: l == 1 }, 0),
        ),
    ensures
        table_inv(
            cums@,
            final(dp)@,
            start,
            n_max as int,
            rank(i as int, Node { cum: j, crc: k, carry: l == 1 }, 64),
        ),
{
    let ghost from = Node { cum: j, crc: k, carry: l == 1 };
    let ghost want = cums@[i + 2];
    let range = cum_range(cums[i + 2]);
    let hi = range.1;
    let mut c = range.0;
    proof {
        lemma_jump_range(
            cums@,
            dp@,
            start,
            n_max as int,
            i as int,
            from,
            want,
            0,
            c as int,
        );
    }
    while c <= hi
        invariant
            i < 18,
            j < 64,
            l <= 1,
            hi < 64,
            range.0 <= c <= hi + 1,
            from == (Node { cum: j, crc: k, carry: l == 1 }),
            is_tail_table(*tail_table),
            want == cums@[i + 2],
            forall|x: int| #[trigger] cum_allowed(want, x) <==> range.0 <= x <= hi,
            reached(dp@, i as int, from),
            table_inv(cums@, dp@, start, n_max as int, rank(i as int, from, c as int)),
        decreases hi + 1 - c,
    {
        let six = six_between(j, c);
        let pruned = (i == 11 && (six >> 2) >= 7) || (i == 12 && (six & 0xF) >= 7) || ((i == 2 || i
            == 6) && (six & 0xF) == 15) || ((i == 13 || i == 17) && (six >> 2) == 15) || ((i == 3
            || i == 7 || i == 13 || i == 17) && l == 1 && (six & 3) == 3);
        if pruned {
            proof {
                lemma_jump_pruned(cums@, dp@, start, n_max as int, i as int, from, c as int);
            }
        } else {
            let crc = k ^ tail_table[i][six as usize];
            let l_nxt: u8 = if (six >> 4) == 3 {
                1
            } else {
                0
            };
            let d = cell_index(i + 1, c, crc, l_nxt);
            proof {
                assert(advance(i as int, from, six) == (Node {
                    cum: c,
                    crc,
                    carry: l_nxt == 1,
                }));
                assert(edge_ok(cums@, i as int, from, six));
                reveal(within_cap);
            }
            if dp[d].len() < n_max {
                let ghost before = dp@;
                dp[d].push(DpTrace::new(j, k, l));
                proof {
                    lemma_trace_fields(j, k, l);
                    assert(pushed(before, dp@, d as int, from));
                    lemma_push(
                        cums@,
                        before,
                        dp@,
                        start,
                        n_max as int,
                        i as int,
                        from,
                        six,
                        rank(i as int, from, c as int),
                    );
                    assert(dp@[slot(i as int, from)] == before[slot(i as int, from)]);
                }
            } else {
                proof {
                    lemma_full(
                        cums@,
                        dp@,
                        start,
                        n_max as int,
                        i as int,
                        from,
                        six,
                        rank(i as int, from, c as int),
                    );
                }
            }
        }
        c += 1;
    }
    proof {
        lemma_jump_range(
            cums@,
            dp@,
            start,
            n_max as int,
            i as int,
            from,
            want,
            c as int,
            64,
        );
    }
}

/// A search table that holds nothing but one step back in the cell
/// `start_cell`.
fn new_table(start_cell: usize) -> (dp: Vec<Vec<DpTrace>>)
    requires
        start_cell < TABLE_CELLS,
    ensures
        dp.len() == TABLE_CELLS,
        dp[start_cell as int]@.len() == 1,
        forall|s: int| 0 <= s < dp.len() && s != start_cell ==> (#[trigger] dp[s])@.len() == 0,
{
    let mut dp: Vec<Vec<DpTrace>> = Vec::with_capacity(TABLE_CELLS);
    let mut s: usize = 0;
    while s < TABLE_CELLS
        invariant
            s <= TABLE_CELLS,
            dp.len() == s,
            forall|t: int| 0 <= t < s ==> (#[trigger] dp[t])@.len() == 0,
        decreases TABLE_CELLS - s,
    {
        dp.push(Vec::new());
        s += 1;
    }
    // What this step back holds is never read: it marks the cell as reached.
    dp[start_cell].push(DpTrace::new(0, 0, 0));
    dp
}

/// The cell of the search table for stage `i`, running sum `j`, CRC byte
/// `k` and carry `l`.
fn cell_index(i: usize, j: u8, k: u8, l: u8) -> (s: usize)
    requires
        i <= 18,
        j < 64,
        l <= 1,
    ensures
        s == slot(i as int, Node { cum: j, crc: k, carry: l == 1 }),
        s < TABLE_CELLS,
{
    ((i * 64 + j as usize) * 256 + k as usize) * 2 + l as usize
}

/// The running sums that a pattern allows at one position, from the
/// smallest to the largest.
pub fn cum_range(opt_cum: Option<u8>) -> (range: (u8, u8))
    ensures
        range == match opt_cum {
            Some(index) => (index, index),
            None => (0u8, 63u8),
        },
        forall|c: int| #[trigger] cum_allowed(opt_cum, c) <==> range.0 <= c <= range.1,
{
    match opt_cum {
        Some(index) => (index, index),
        None => (0, 63),
    }
}

/// Walks back through a search table that is filled, from each cell of the
/// last stage that the pattern allows and that holds the check byte of the
/// head, until `n_max` buffers are found.
fn generate_dp_restore(
    sixs_head: [u8; 2],
    cums: &[Option<u8>; 20],
    n_max: usize,
    dp: &Vec<Vec<DpTrace>>,
    Ghost(start): Ghost<Node>,
) -> (bytess: Vec<[u8; 15]>)
    requires
        is_cums(cums@),
        sixs_head[0] < 64,
        sixs_head[1] < 64,
        restore_pre(
            cums@,
            dp@,
            start,
            n_max as int,
            Seq::new(20, |p: int| if p < 2 { sixs_head[p] } else { 0u8 }),
        ),
    ensures
        dp_post(cums@, sixs_head[0], sixs_head[1], n_max as int, bytess@),
{
    let crc_expect = sixs_head[0] | (sixs_head[1] << 6);
    let mut bytess: Vec<[u8; 15]> = Vec::new();
    let mut sixs = [0u8; 20];
    sixs[0] = sixs_head[0];
    sixs[1] = sixs_head[1];
    let ghost sixs0 = sixs@;
    assert(sixs0 == Seq::new(20, |p: int| if p < 2 { sixs_head[p] } else { 0u8 }));
    let range = cum_range(cums[19]);
    let hi = range.1;
    let mut cum = range.0;
    proof {
        lemma_end_begin(cums@, dp@, start, n_max as int, sixs0, cum as int);
    }
    while cum <= hi
        invariant
            hi < 64,
            cum <= hi + 1,
            crc_expect == sixs0[0] | (sixs0[1] << 6),
            sixs0[0] == sixs_head[0],
            sixs0[1] == sixs_head[1],
            restore_pre(cums@, dp@, start, n_max as int, sixs0),
            same_frame(sixs0, sixs@, 18),
            restore_mid(cums@, sixs0[0], sixs0[1], n_max as int, bytess@, 2 * cum),
        decreases hi + 1 - cum,
    {
        let mut l: u8 = 0;
        while l <= 1
            invariant
                hi < 64,
                cum <= hi,
                l <= 2,
                crc_expect == sixs0[0] | (sixs0[1] << 6),
                sixs0[0] == sixs_head[0],
                sixs0[1] == sixs_head[1],
                restore_pre(cums@, dp@, start, n_max as int, sixs0),
                same_frame(sixs0, sixs@, 18),
                restore_mid(cums@, sixs0[0], sixs0[1], n_max as int, bytess@, 2 * cum + l),
            decreases 2 - l,
        {
            let ghost node = Node { cum, crc: crc_expect, carry: l == 1 };
            let ghost before = bytess@;
            let ghost sixs_now = sixs@;
            let cell = cell_index(18, cum, crc_expect, l);
            if dp[cell].len() > 0 {
                proof {
                    lemma_end_enter(
                        cums@,
                        dp@,
                        start,
                        n_max as int,
                        sixs0,
                        sixs_now,
                        before,
                        node,
                    );
                }
                let full = dfs(
                    dp,
                    n_max,
                    &mut bytess,
                    18,
                    cum,
                    crc_expect,
                    l,
                    &mut sixs,
                    Ghost(cums@),
                    Ghost(start),
                );
                if full {
                    proof {
                        assert(sixs_now[0] == sixs0[0] && sixs_now[1] == sixs0[1]);
                    }
                    return bytess;
                }
                proof {
                    assert forall|p: int| 0 <= p < 20 && (p < 2 || p >= 20)
                        implies #[trigger] sixs@[p]
                        == sixs0[p] by {
                        assert(sixs_now[p] == sixs0[p]);
                    }
                    assert(same_frame(sixs0, sixs@, 18));
                }
            }
            proof {
                lemma_end_leave(
                    cums@,
                    dp@,
                    start,
                    n_max as int,
                    sixs0,
                    sixs_now,
                    before,
                    bytess@,
                    node,
                );
            }
            l += 1;
        }
        cum += 1;
    }
    proof {
        lemma_end_exit(cums@, dp@, start, n_max as int, sixs0, bytess@, hi as int);
    }
    bytess
}

/// Walks back through the search table from the cell of stage `i` with
/// running sum `j`, CRC byte `k` and carry `l`, and adds to `bytess` the
/// buffer of each way from the start of the search to that cell, followed
/// by the units that `sixs` holds after stage `i`. It stops when `bytess`
/// holds `n_max` buffers, and says whether it does.
fn dfs(
    dp: &Vec<Vec<DpTrace>>,
    n_max: usize,
    bytess: &mut Vec<[u8; 15]>,
    i: usize,
    j: u8,
    k: u8,
    l: u8,
    sixs: &mut [u8; 20],
    Ghost(cums): Ghost<Seq<Option<u8>>>,
    Ghost(start): Ghost<Node>,
) -> (full: bool)
    requires
        l <= 1,
        walk_pre(
            cums,
            dp@,
            start,
            n_max as int,
            i as int,
            Node { cum: j, crc: k, carry: l == 1 },
            old(sixs)@,
            old(bytess)@,
        ),
    ensures
        walk_post(
            cums,
            n_max as int,
            i as int,
            Node { cum: j, crc: k, carry: l == 1 },
            old(sixs)@,
            old(bytess)@,
            final(bytess)@,
            full,
        ),
        same_frame(old(sixs)@, final(sixs)@, i as int),
    decreases i,
{
    let ghost node = Node { cum: j, crc: k, carry: l == 1 };
    let ghost sixs0 = sixs@;
    let ghost before = bytess@;
    if i == 0 {
        let bytes = sixs_to_bytes(sixs);
        proof {
            lemma_leaf(cums, dp@, start, n_max as int, node, sixs0, before, bytes);
        }
        bytess.push(bytes);
        return bytess.len() == n_max;
    }
    let cell = cell_index(i, j, k, l);
    let mut idx: usize = 0;
    proof {
        lemma_begin(cums, dp@, start, n_max as int, i as int, node, sixs0, before);
    }
    while idx < dp[cell].len()
        invariant
            1 <= i <= 18,
            j < 64,
            l <= 1,
            node == (Node { cum: j, crc: k, carry: l == 1 }),
            sixs0 == old(sixs)@,
            before == old(bytess)@,
            cell == slot(i as int, node),
            cell < dp.len(),
            idx <= dp[cell as int]@.len(),
            walk_pre(cums, dp@, start, n_max as int, i as int, node, sixs0, before),
            walk_mid(cums, dp@, n_max as int, i as int, node, sixs0, before, bytess@, idx as int),
            same_frame(sixs0, sixs@, i as int),
        decreases dp[cell as int]@.len() - idx,
    {
        let trace = dp[cell][idx];
        let ghost now = bytess@;
        let ghost sixs_now = sixs@;
        proof {
            lemma_enter(
                cums,
                dp@,
                start,
                n_max as int,
                i as int,
                node,
                sixs0,
                sixs_now,
                before,
                now,
                idx as int,
            );
            let from = step_back(dp@, i as int, node, sixs_now, idx as int).0;
            lemma_trace_fields(from.cum, from.crc, carry_bit(from.carry));
        }
        let six = six_between(trace.j(), j);
        sixs[i + 1] = six;
        let full = dfs(
            dp,
            n_max,
            bytess,
            i - 1,
            trace.j(),
            trace.k(),
            trace.l(),
            sixs,
            Ghost(cums),
            Ghost(start),
        );
        proof {
            lemma_leave(
                cums,
                dp@,
                start,
                n_max as int,
                i as int,
                node,
                sixs0,
                sixs_now,
                before,
                now,
                bytess@,
                idx as int,
                full,
            );
            assert forall|p: int| 0 <= p < 20 && (p < 2 || p >= i + 2) implies #[trigger] sixs@[p]
                == sixs0[p] by {
                assert(sixs_now[p] == sixs0[p]);
            }
            assert(same_frame(sixs0, sixs@, i as int));
        }
        if full {
            return true;
        }
        idx += 1;
    }
    proof {
        lemma_exit(cums, dp@, start, n_max as int, i as int, node, sixs0, before, bytess@);
    }
    false
}

/// The number of cells of the search table: for each of the nineteen
/// stages, one cell for each running sum, CRC byte and carry.
pub const TABLE_CELLS: usize = 622592;

/// The number of cells of one stage of the search table.
pub const STAGE_CELLS: usize = 32768;

/// A step back in the search table: the running sum, the CRC byte and the
/// carry of the cell that a step of the search came from, in sixteen bits.
#[derive(Clone, Copy, Debug, PartialEq, Eq)]
pub struct DpTrace(pub u16);

impl DpTrace {
    /// The running sum of the cell that the step came from.
    pub open spec fn spec_j(self) -> u8 {
        ((self.0 >> 8) & 0x3F) as u8
    }

    /// The CRC byte of the cell that the step came from.
    pub open spec fn spec_k(self) -> u8 {
        (self.0 & 0xFF) as u8
    }

    /// The carry of the cell that the step came from.
    pub open spec fn spec_l(self) -> u8 {
        (self.0 >> 14) as u8
    }

    /// The cell that the step came from.
    pub open spec fn node(self) -> Node {
        Node { cum: self.spec_j(), crc: self.spec_k(), carry: self.spec_l() == 1 }
    }

    /// The step back to the cell with running sum `j`, CRC byte `k` and
    /// carry `l`.
    pub fn new(j: u8, k: u8, l: u8) -> (trace: Self)
        requires
            j < 64,
            l <= 1,
        ensures
            trace.spec_j() == j,
            trace.spec_k() == k,
            trace.spec_l() == l,
            trace == trace_of(trace.node()),
    {
        proof {
            lemma_trace_fields(j, k, l);
        }
        DpTrace((k as u16) | ((j as u16) << 8) | ((l as u16) << 14))
    }

    pub fn j(self) -> (j: u8)
        ensures
            j == self.spec_j(),
            j < 64,
    {
        proof {
            lemma_trace_ranges(self.0);
        }
        ((self.0 >> 8) & 0x3F) as u8
    }

    pub fn k(self) -> (k: u8)
        ensures
            k == self.spec_k(),
    {
        proof {
            lemma_trace_ranges(self.0);
        }
        (self.0 & 0xFF) as u8
    }

    pub fn l(self) -> (l: u8)
        ensures
            l == self.spec_l(),
    {
        proof {
            lemma_trace_ranges(self.0);
        }
        (self.0 >> 14) as u8
    }
}

/// A carry as a number.
pub open spec fn carry_bit(carry: bool) -> u8 {
    if carry {
        1
    } else {
        0
    }
}

/// The step back to the cell `node`.
pub open spec fn trace_of(node: Node) -> DpTrace {
    DpTrace((node.crc as u16) | ((node.cum as u16) << 8) | ((carry_bit(node.carry) as u16) << 14))
}

/// Packing a running sum, a CRC byte and a carry into sixteen bits loses
/// nothing.
pub proof fn lemma_trace_fields(j: u8, k: u8, l: u8)
    by (bit_vector)
    requires
        j < 64,
        l <= 1,
    ensures
        ((((k as u16) | ((j as u16) << 8) | ((l as u16) << 14)) >> 8) & 0x3F) as u8 == j,
        (((k as u16) | ((j as u16) << 8) | ((l as u16) << 14)) & 0xFF) as u8 == k,
        (((k as u16) | ((j as u16) << 8) | ((l as u16) << 14)) >> 14) as u8 == l,
{
}

/// The fields of sixteen bits are small.
pub proof fn lemma_trace_ranges(t: u16)
    by (bit_vector)
    ensures
        (t >> 8) & 0x3F < 64,
        t & 0xFF < 256,
        t >> 14 < 4,
{
}

/// A step back that is made from a cell leads back to it.
pub proof fn lemma_trace_of(node: Node)
    requires
        node.cum < 64,
    ensures
        trace_of(node).node() == node,
{
    lemma_trace_fields(node.cum, node.crc, carry_bit(node.carry));
}

/// The upper four bits of a unit.
proof fn lemma_upper_bits(six: u8)
    by (bit_vector)
    requires
        six < 64,
    ensures
        six >> 2 < 16,
{
}

/// Whether a pattern asks only for indices of the password alphabet.
pub open spec fn is_cums(cums: Seq<Option<u8>>) -> bool {
    cums.len() == 20 && forall|i: int|
        0 <= i < 20 ==> ((#[trigger] cums[i]) matches Some(index) ==> index < 64)
}

/// Whether `table` holds, for each unit of the tail and each value it can
/// take, the low byte of what it adds to the CRC of the payload.
pub open spec fn is_tail_table(table: [[u8; 64]; 18]) -> bool {
    forall|i: int, j: int|
        0 <= i < 18 && 0 <= j < 64 ==> #[trigger] table[i][j] == spec_crc8_tail(i, j as u8)
}

/// Whether `table` holds, for each value of the upper four bits of the
/// second unit of a buffer, the low byte of what they add to the CRC of the
/// payload.
pub open spec fn is_head_table(table: [u8; 16]) -> bool {
    forall|j: int| 0 <= j < 16 ==> #[trigger] table[j] == spec_crc8_head(j as u8)
}

} // verus!
