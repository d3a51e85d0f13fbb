//! What a search has found: buffers that are sound, differ from each other
//! and, unless the search was cut short, are all there are.

use vstd::prelude::*;
use crate::decode::password_sixes;
use crate::encode::spec_bytes_to_password;
use crate::generate::is_generated;
use crate::normalize::is_pattern;
use crate::roundtrip::lemma_bytes_password_bytes;
use crate::sixbit::{
    bytes_to_sixes, cumulative, difference, is_sixes, lemma_cumulative_of_difference,
    lemma_cumulative_range, lemma_difference_of_cumulative, lemma_sixes_bytes_sixes,
    spec_sixs_to_bytes,
};
use crate::trail::{
    is_solution, is_trail, lemma_solution_has_trail, lemma_solution_is_password,
    lemma_trail_is_solution, pattern_cums,
};

verus! {

/// The units of a buffer.
#[verifier::opaque]
pub open spec fn trail_of(bytes: [u8; 15]) -> Seq<u8> {
    bytes_to_sixes(bytes@)
}

/// The units of the buffer of units are those units.
pub proof fn lemma_trail_of(sixs: Seq<u8>, bytes: [u8; 15])
    requires
        is_sixes(sixs),
        bytes@ == spec_sixs_to_bytes(sixs),
    ensures
        trail_of(bytes) == sixs,
{
    reveal(trail_of);
    lemma_sixes_bytes_sixes(sixs);
}

/// Whether the buffer of the units `x` is among `results`.
pub open spec fn found(results: Seq<[u8; 15]>, x: Seq<u8>) -> bool {
    exists|r: int| 0 <= r < results.len() && #[trigger] trail_of(results[r]) == x
}

/// Whether `later` begins with `earlier`.
pub open spec fn extends(earlier: Seq<[u8; 15]>, later: Seq<[u8; 15]>) -> bool {
    earlier.len() <= later.len() && forall|r: int|
        0 <= r < earlier.len() ==> #[trigger] later[r] == earlier[r]
}

/// Whether each of `results` is the buffer of units that the search looks
/// for, with the given head.
#[verifier::opaque]
pub open spec fn results_sound(
    cums: Seq<Option<u8>>,
    results: Seq<[u8; 15]>,
    head0: u8,
    head1: u8,
) -> bool {
    forall|r: int|
        0 <= r < results.len() ==> {
            let x = #[trigger] trail_of(results[r]);
            &&& is_trail(cums, x)
            &&& results[r]@ == spec_sixs_to_bytes(x)
            &&& x[0] == head0
            &&& x[1] == head1
        }
}

/// Whether no two of `results` hold the same units.
#[verifier::opaque]
pub open spec fn results_differ(results: Seq<[u8; 15]>) -> bool {
    forall|a: int, b: int|
        0 <= a < b < results.len() ==> #[trigger] trail_of(results[a]) != #[trigger] trail_of(
            results[b],
        )
}

/// Sound results with one more that is sound are sound.
pub proof fn lemma_sound_push(
    cums: Seq<Option<u8>>,
    before: Seq<[u8; 15]>,
    bytes: [u8; 15],
    head0: u8,
    head1: u8,
)
    requires
        results_sound(cums, before, head0, head1),
        is_trail(cums, trail_of(bytes)),
        bytes@ == spec_sixs_to_bytes(trail_of(bytes)),
        trail_of(bytes)[0] == head0,
        trail_of(bytes)[1] == head1,
    ensures
        results_sound(cums, before.push(bytes), head0, head1),
{
    reveal(results_sound);
    let after = before.push(bytes);
    assert forall|r: int| 0 <= r < after.len() implies {
        let x = #[trigger] trail_of(after[r]);
        &&& is_trail(cums, x)
        &&& after[r]@ == spec_sixs_to_bytes(x)
        &&& x[0] == head0
        &&& x[1] == head1
    } by {
        if r < before.len() {
            assert(after[r] == before[r]);
            assert(is_trail(cums, trail_of(before[r])));
        }
    }
}

/// Different results with one more that differs from them are different.
pub proof fn lemma_differ_push(before: Seq<[u8; 15]>, bytes: [u8; 15])
    requires
        results_differ(before),
        forall|r: int| 0 <= r < before.len() ==> #[trigger] trail_of(before[r]) != trail_of(bytes),
    ensures
        results_differ(before.push(bytes)),
{
    reveal(results_differ);
    let after = before.push(bytes);
    assert forall|a: int, b: int| 0 <= a < b < after.len() implies #[trigger] trail_of(after[a])
        != #[trigger] trail_of(after[b]) by {
        assert(after[a] == before[a]);
        if b < before.len() {
            assert(after[b] == before[b]);
            assert(trail_of(before[a]) != trail_of(before[b]));
        } else {
            assert(trail_of(before[a]) != trail_of(bytes));
        }
    }
}

/// Whether `results` hold no more than `n_max` buffers, all of units that
/// the search looks for with the given head, no two the same, and, unless
/// they are `n_max`, the buffers of all such units.
pub open spec fn dp_post(
    cums: Seq<Option<u8>>,
    head0: u8,
    head1: u8,
    n_max: int,
    results: Seq<[u8; 15]>,
) -> bool {
    &&& results.len() <= n_max
    &&& results_sound(cums, results, head0, head1)
    &&& results_differ(results)
    &&& results.len() < n_max ==> forall|x: Seq<u8>|
        #[trigger] is_trail(cums, x) && x[0] == head0 && x[1] == head1 ==> found(results, x)
}

/// The place of the head of the units `x` in the order in which the search
/// takes the heads.
pub open spec fn head_rank(x: Seq<u8>) -> int {
    cumulative(x, 0) * 64 + cumulative(x, 1)
}

/// Whether each of `results` is the buffer of units that the search looks
/// for.
#[verifier::opaque]
pub open spec fn all_sound(cums: Seq<Option<u8>>, results: Seq<[u8; 15]>) -> bool {
    forall|r: int|
        0 <= r < results.len() ==> {
            let x = #[trigger] trail_of(results[r]);
            is_trail(cums, x) && results[r]@ == spec_sixs_to_bytes(x)
        }
}

/// What holds between the searches from two heads, when those from the
/// heads before the place `h` are done.
pub open spec fn search_mid(
    cums: Seq<Option<u8>>,
    n_max: int,
    results: Seq<[u8; 15]>,
    h: int,
) -> bool {
    &&& results.len() <= n_max
    &&& all_sound(cums, results)
    &&& results_differ(results)
    &&& forall|r: int| 0 <= r < results.len() ==> head_rank(#[trigger] trail_of(results[r])) < h
    &&& results.len() < n_max ==> forall|x: Seq<u8>|
        #[trigger] is_trail(cums, x) && head_rank(x) < h ==> found(results, x)
}

/// Whether `results` hold no more than `n_max` buffers, all of units that
/// the search looks for, no two the same, and, unless they are `n_max`,
/// the buffers of all such units.
pub open spec fn search_post(cums: Seq<Option<u8>>, n_max: int, results: Seq<[u8; 15]>) -> bool {
    &&& results.len() <= n_max
    &&& all_sound(cums, results)
    &&& results_differ(results)
    &&& results.len() < n_max ==> forall|x: Seq<u8>|
        #[trigger] is_trail(cums, x) ==> found(results, x)
}

/// The head of units is the head that leads to their first two running
/// sums.
pub proof fn lemma_head_of(x: Seq<u8>)
    requires
        is_sixes(x),
    ensures
        0 <= cumulative(x, 0) < 64,
        0 <= cumulative(x, 1) < 64,
        x[0] == difference(0, cumulative(x, 0)),
        x[1] == difference(cumulative(x, 0), cumulative(x, 1)),
{
    lemma_cumulative_range(x, 0);
    lemma_cumulative_range(x, 1);
    lemma_difference_of_cumulative(x, 0);
    lemma_difference_of_cumulative(x, 1);
    reveal_with_fuel(cumulative, 3);
}

/// The search may pass over heads that the pattern does not allow.
pub proof fn lemma_head_skip(
    cums: Seq<Option<u8>>,
    n_max: int,
    results: Seq<[u8; 15]>,
    h: int,
    next: int,
)
    requires
        search_mid(cums, n_max, results, h),
        h <= next,
        forall|x: Seq<u8>| #[trigger] is_trail(cums, x) ==> !(h <= head_rank(x) < next),
    ensures
        search_mid(cums, n_max, results, next),
{
    assert forall|r: int| 0 <= r < results.len() implies head_rank(
        #[trigger] trail_of(results[r]),
    ) < next by {
        assert(head_rank(trail_of(results[r])) < h);
    }
}

/// After the search from one head, the searches from the heads before the
/// next place are done.
pub proof fn lemma_head_done(
    cums: Seq<Option<u8>>,
    n_max: int,
    before: Seq<[u8; 15]>,
    partial: Seq<[u8; 15]>,
    cum0: int,
    cum1: int,
)
    requires
        0 <= cum0 < 64,
        0 <= cum1 < 64,
        before.len() < n_max,
        search_mid(cums, n_max, before, cum0 * 64 + cum1),
        dp_post(
            cums,
            difference(0, cum0),
            difference(cum0, cum1),
            n_max - before.len(),
            partial,
        ),
    ensures
        search_mid(cums, n_max, before + partial, cum0 * 64 + cum1 + 1),
{
    let h = cum0 * 64 + cum1;
    let head0 = difference(0, cum0);
    let head1 = difference(cum0, cum1);
    let after = before + partial;
    reveal(all_sound);
    reveal(results_sound);
    reveal(results_differ);
    assert forall|r: int| 0 <= r < after.len() implies {
        let x = #[trigger] trail_of(after[r]);
        is_trail(cums, x) && after[r]@ == spec_sixs_to_bytes(x) && head_rank(x) < h + 1
    } by {
        if r < before.len() {
            assert(after[r] == before[r]);
            assert(head_rank(trail_of(before[r])) < h);
        } else {
            let q = r - before.len();
            assert(after[r] == partial[q]);
            let x = trail_of(partial[q]);
            assert(is_trail(cums, x));
            lemma_head_of(x);
            lemma_cumulative_of_difference(0, cum0);
            lemma_cumulative_of_difference(cum0, cum1);
            reveal_with_fuel(cumulative, 3);
        }
    }
    assert forall|a: int, b: int| 0 <= a < b < after.len() implies #[trigger] trail_of(after[a])
        != #[trigger] trail_of(after[b]) by {
        if b < before.len() {
            assert(after[a] == before[a] && after[b] == before[b]);
        } else if a >= before.len() {
            assert(after[a] == partial[a - before.len()]);
            assert(after[b] == partial[b - before.len()]);
        } else {
            assert(after[a] == before[a]);
            assert(head_rank(trail_of(before[a])) < h);
            let x = trail_of(after[b]);
            assert(after[b] == partial[b - before.len()]);
            assert(is_trail(cums, x));
            lemma_head_of(x);
            lemma_cumulative_of_difference(0, cum0);
            lemma_cumulative_of_difference(cum0, cum1);
            reveal_with_fuel(cumulative, 3);
            assert(head_rank(x) == h);
        }
    }
    if after.len() < n_max {
        assert forall|x: Seq<u8>| #[trigger] is_trail(cums, x) && head_rank(x) < h + 1
            implies found(after, x) by {
            if head_rank(x) < h {
                assert(found(before, x));
                let r = choose|r: int| 0 <= r < before.len() && #[trigger] trail_of(before[r]) == x;
                assert(after[r] == before[r]);
                assert(trail_of(after[r]) == x);
            } else {
                lemma_head_of(x);
                assert(cumulative(x, 0) == cum0 && cumulative(x, 1) == cum1);
                assert(found(partial, x));
                let q = choose|q: int| 0 <= q < partial.len()
                    && #[trigger] trail_of(partial[q]) == x;
                assert(after[before.len() + q] == partial[q]);
                assert(trail_of(after[before.len() + q]) == x);
            }
        }
    }
}

/// The password of each buffer that a search has found is one that a
/// search for the pattern may return.
pub proof fn lemma_generated_sound(pattern: Seq<char>, results: Seq<[u8; 15]>, r: int)
    requires
        is_pattern(pattern),
        all_sound(pattern_cums(pattern), results),
        0 <= r < results.len(),
    ensures
        is_solution(pattern, spec_bytes_to_password(results[r]@)),
{
    reveal(all_sound);
    let x = trail_of(results[r]);
    assert(is_trail(pattern_cums(pattern), x));
    lemma_trail_is_solution(pattern, x);
}

/// Buffers of different units have different passwords.
pub proof fn lemma_generated_differ(results: Seq<[u8; 15]>, a: int, b: int)
    requires
        results_differ(results),
        0 <= a < b < results.len(),
    ensures
        spec_bytes_to_password(results[a]@) != spec_bytes_to_password(results[b]@),
{
    reveal(results_differ);
    reveal(trail_of);
    assert(trail_of(results[a]) != trail_of(results[b]));
    lemma_bytes_password_bytes(results[a]@);
    lemma_bytes_password_bytes(results[b]@);
}

/// Every password that a search for the pattern may return is the password
/// of a buffer that the search has found, if it has found all.
pub proof fn lemma_generated_all(
    pattern: Seq<char>,
    results: Seq<[u8; 15]>,
    password: Seq<char>,
) -> (r: int)
    requires
        is_pattern(pattern),
        all_sound(pattern_cums(pattern), results),
        forall|x: Seq<u8>| #[trigger] is_trail(pattern_cums(pattern), x) ==> found(results, x),
        is_solution(pattern, password),
    ensures
        0 <= r < results.len(),
        spec_bytes_to_password(results[r]@) == password,
{
    let cums = pattern_cums(pattern);
    let x = password_sixes(password);
    lemma_solution_is_password(pattern, password);
    lemma_solution_has_trail(password);
    lemma_trail_is_solution(pattern, x);
    assert(is_trail(cums, x));
    assert(found(results, x));
    let r = choose|r: int| 0 <= r < results.len() && #[trigger] trail_of(results[r]) == x;
    reveal(all_sound);
    assert(is_trail(cums, trail_of(results[r])));
    r
}

/// The passwords of what a search has found are what a search for the
/// pattern may return.
pub proof fn lemma_generated(
    pattern: Seq<char>,
    n_max: int,
    results: Seq<[u8; 15]>,
    passwords: Seq<String>,
)
    requires
        is_pattern(pattern),
        search_post(pattern_cums(pattern), n_max, results),
        passwords.len() == results.len(),
        forall|r: int|
            0 <= r < results.len() ==> (#[trigger] passwords[r])@ == spec_bytes_to_password(
                results[r]@,
            ),
    ensures
        is_generated(pattern, n_max, passwords),
{
    assert forall|i: int| 0 <= i < passwords.len() implies is_solution(
        pattern,
        #[trigger] passwords[i]@,
    ) by {
        lemma_generated_sound(pattern, results, i);
    }
    assert forall|a: int, b: int| 0 <= a < b < passwords.len() implies #[trigger] passwords[a]@
        != #[trigger] passwords[b]@ by {
        lemma_generated_differ(results, a, b);
    }
    if passwords.len() < n_max {
        assert forall|password: Seq<char>| #[trigger] is_solution(pattern, password) implies exists|
            i: int,
        |
            0 <= i < passwords.len() && #[trigger] passwords[i]@ == password by {
            let r = lemma_generated_all(pattern, results, password);
            assert(passwords[r]@ == password);
        }
    }
}

} // verus!
