//! Generation of the stimulus streams: one stream at a time with a
//! controlled share of lag-`n` repetitions, and the pair of streams of a
//! dual session, whose repetitions are steered away from each other.
//!
//! A stream is built from a plan of the positions that repeat: a planned
//! position copies the symbol `n` steps back, any other position draws a
//! different one. The stream thus repeats exactly at the planned positions,
//! and the planned count lies in the band `[1/6, 1/4]` of the length
//! whenever some count can, so no stream ever has to be drawn again.

use crate::random::{random_below, shuffle_positions};
use std::collections::HashSet;
use vstd::prelude::*;

verus! {

broadcast use vstd::std_specs::hash::group_hash_axioms;

/// The auditory symbol sets a session can draw its sounds from.
#[derive(Debug, Clone, Copy, PartialEq, Eq, Hash, Structural)]
pub enum AuditoryStimulusSet {
    AllLetters,
    NonConfusingLetters,
    TianGanDiZhi,
}

/// Why a stream cannot be generated.
#[derive(Debug, Clone, Copy, PartialEq, Eq, Structural)]
pub enum GenerationError {
    /// The lag is zero or not below the stream length.
    InvalidLag,
    /// Fewer than two distinct symbols to draw from.
    AlphabetTooSmall,
}

/// Positions `i` of `s`, at or after `n`, whose symbol repeats the one
/// `n` steps earlier.
pub open spec fn match_positions<T>(s: Seq<T>, n: int) -> Set<int> {
    Set::new(|i: int| n <= i < s.len() && s[i] == s[i - n])
}

/// Positions that a plan marks.
pub open spec fn marked(plan: Seq<bool>) -> Set<int> {
    Set::new(|i: int| 0 <= i < plan.len() && plan[i])
}

/// Positions in `[n, length)` that are not forbidden to repeat.
pub open spec fn free_slots(n: int, length: int, forbidden: Set<usize>) -> Set<int> {
    Set::new(|i: int| n <= i < length && !forbidden.contains(i as usize))
}

/// Least number of repetitions whose share of `length` is at least 1/6.
pub open spec fn band_floor(length: int) -> int {
    (length + 5) / 6
}

/// Greatest number of repetitions whose share of `length` is at most 1/4.
pub open spec fn band_ceiling(length: int) -> int {
    length / 4
}

/// The share `count / length` lies in `[1/6, 1/4]`.
pub open spec fn in_band(count: int, length: int) -> bool {
    6 * count >= length && 4 * count <= length
}

/// Some number of repetitions that fits in `[n, length)` has its share in
/// the band.
pub open spec fn band_reachable(n: int, length: int) -> bool {
    band_floor(length) <= band_ceiling(length) && band_floor(length) <= length - n
}

/// One fifth of the positions that can repeat, rounded up.
pub open spec fn target_match_count(n: int, length: int) -> int {
    (length - n + 4) / 5
}

/// Number of repetitions a stream is built with: the one-fifth target,
/// moved into the band when the band can be reached at all.
pub open spec fn planned_match_count(n: int, length: int) -> int {
    let t = target_match_count(n, length);
    if band_reachable(n, length) && t < band_floor(length) {
        band_floor(length)
    } else if band_reachable(n, length) && t > band_ceiling(length) {
        band_ceiling(length)
    } else {
        t
    }
}

/// A stream repeats `planned_match_count` of its positions: only positions
/// that are not forbidden when there are enough of those, and all of those
/// otherwise.
pub open spec fn repeats_as_planned<T>(s: Seq<T>, n: int, forbidden: Set<usize>) -> bool {
    let matches = match_positions(s, n);
    let planned = planned_match_count(n, s.len() as int);
    let free = free_slots(n, s.len() as int, forbidden);
    &&& matches.finite()
    &&& matches.len() == planned
    &&& planned <= free.len() ==> matches.subset_of(free)
    &&& planned > free.len() ==> free.subset_of(matches)
}

/// Number of distinct symbols in an alphabet.
pub open spec fn distinct_count<T>(alphabet: Seq<T>) -> nat {
    alphabet.to_set().len()
}

/// Positions of a set of stream positions, as the index type of a
/// `HashSet<usize>`.
pub open spec fn slots_of(positions: Set<int>) -> Set<usize> {
    Set::new(|u: usize| positions.contains(u as int))
}

/// What each string of a stream reads as.
pub open spec fn views_of(s: Seq<String>) -> Seq<Seq<char>> {
    s.map_values(|x: String| x@)
}

/// The symbols of each auditory set.
pub open spec fn auditory_table(set: AuditoryStimulusSet) -> Seq<&'static str> {
    match set {
        AuditoryStimulusSet::AllLetters => seq![
            "A", "B", "C", "D", "E", "F", "G", "H", "I", "J", "K", "L", "M", "N", "O", "P", "Q",
            "R", "S", "T", "U", "V", "W", "X", "Y", "Z",
        ],
        AuditoryStimulusSet::NonConfusingLetters => seq![
            "A", "K", "Q", "R", "U", "W", "H", "L", "O",
        ],
        AuditoryStimulusSet::TianGanDiZhi => seq![
            "jia", "yi", "bing", "ding", "wu", "ji", "geng", "xin", "ren", "gui", "zi", "chou",
            "yin", "mao", "chen", "si", "wu_branch", "wei", "shen", "you", "xu", "hai",
        ],
    }
}

/// The text of each symbol of an auditory set.
pub open spec fn auditory_texts(set: AuditoryStimulusSet) -> Seq<Seq<char>> {
    auditory_table(set).map_values(|s: &'static str| s@)
}

/// Number of cells of the 3x3 visual grid; the generators name a cell by its
/// index, `0` to `GRID_CELLS - 1`.
pub const GRID_CELLS: u8 = 9;

/// A pair of streams for a dual session: the visual one is built with the
/// auditory stream's repetitions as its forbidden positions.
pub open spec fn dual_streams_follow_plan<A>(heard: Seq<A>, seen: Seq<u8>, n: int) -> bool {
    &&& repeats_as_planned(heard, n, Set::empty())
    &&& repeats_as_planned(seen, n, slots_of(match_positions(heard, n)))
    &&& band_reachable(n, heard.len() as int) ==> in_band(
        match_positions(heard, n).len() as int,
        heard.len() as int,
    )
    &&& band_reachable(n, seen.len() as int) ==> in_band(
        match_positions(seen, n).len() as int,
        seen.len() as int,
    )
}

/// The planned count fits in the positions that can repeat, and lies in the
/// band whenever the band is reachable.
pub proof fn lemma_planned_count_fits(n: int, length: int)
    requires
        0 <= n < length,
    ensures
        0 <= planned_match_count(n, length) <= length - n,
        band_reachable(n, length) ==> in_band(planned_match_count(n, length), length),
{
}

/// A permutation of a list without repeats has no repeats and the same
/// members.
proof fn lemma_permutation_members(a: Seq<usize>, b: Seq<usize>)
    requires
        a.to_multiset() == b.to_multiset(),
        a.no_duplicates(),
    ensures
        b.no_duplicates(),
        forall|x: usize| a.contains(x) <==> b.contains(x),
{
    broadcast use vstd::seq_lib::group_to_multiset_ensures;

    a.lemma_multiset_has_no_duplicates();
    b.lemma_multiset_has_no_duplicates_conv();
    assert forall|x: usize| a.contains(x) <==> b.contains(x) by {
        vstd::seq_lib::to_multiset_contains(a, x);
        vstd::seq_lib::to_multiset_contains(b, x);
    }
}

/// A stream obtained from an index stream by a map that keeps indices apart
/// repeats at the same positions.
pub(crate) proof fn lemma_same_repeats<B>(indices: Seq<usize>, out: Seq<B>, n: int)
    requires
        0 <= n,
        out.len() == indices.len(),
        forall|a: int, b: int|
            0 <= a < out.len() && 0 <= b < out.len() ==> (out[a] == out[b] <==> indices[a]
                == indices[b]),
    ensures
        match_positions(out, n) == match_positions(indices, n),
{
    assert(match_positions(out, n) =~= match_positions(indices, n));
}

/// An alphabet with two different entries has at least two distinct symbols.
proof fn lemma_two_distinct<T>(alphabet: Seq<T>, a: int, b: int)
    requires
        0 <= a < alphabet.len(),
        0 <= b < alphabet.len(),
        alphabet[a] != alphabet[b],
    ensures
        distinct_count(alphabet) >= 2,
{
    let pair = Set::empty().insert(alphabet[a]).insert(alphabet[b]);
    assert(alphabet.to_set().contains(alphabet[a]));
    assert(alphabet.to_set().contains(alphabet[b]));
    assert(pair.subset_of(alphabet.to_set()));
    vstd::seq_lib::seq_to_set_is_finite(alphabet);
    vstd::set_lib::lemma_len_subset(pair, alphabet.to_set());
}

/// Computes `planned_match_count` without overflow.
pub fn planned_count(n: usize, length: usize) -> (r: usize)
    requires
        n < length,
    ensures
        r == planned_match_count(n as int, length as int),
{
    let span = length - n;
    let target = span / 5 + if span % 5 != 0 { 1 } else { 0 };
    let floor = length / 6 + if length % 6 != 0 { 1 } else { 0 };
    let ceiling = length / 4;
    let reachable = floor <= ceiling && floor <= span;
    if reachable && target < floor {
        floor
    } else if reachable && target > ceiling {
        ceiling
    } else {
        target
    }
}

/// Chooses which positions of a stream of `length` symbols repeat the symbol
/// `n` steps earlier: `planned_match_count(n, length)` of them, taken at
/// random among the positions in `[n, length)` that are not forbidden, and
/// only when those are too few, at random among the forbidden ones as well.
pub fn plan_match_positions(n: usize, length: usize, forbidden: &HashSet<usize>) -> (plan: Vec<bool>)
    requires
        n < length,
    ensures
        plan@.len() == length,
        forall|i: int| 0 <= i < n ==> !plan@[i],
        marked(plan@).finite(),
        marked(plan@).len() == planned_match_count(n as int, length as int),
        planned_match_count(n as int, length as int) <= free_slots(
            n as int,
            length as int,
            forbidden@,
        ).len() ==> marked(plan@).subset_of(free_slots(n as int, length as int, forbidden@)),
        planned_match_count(n as int, length as int) > free_slots(
            n as int,
            length as int,
            forbidden@,
        ).len() ==> free_slots(n as int, length as int, forbidden@).subset_of(marked(plan@)),
{
    let target = planned_count(n, length);
    proof {
        lemma_planned_count_fits(n as int, length as int);
    }
    // Split the candidate positions into free and forbidden ones.
    let mut free: Vec<usize> = Vec::new();
    let mut constrained: Vec<usize> = Vec::new();
    let mut i: usize = n;
    proof {
        assert(free_slots(n as int, n as int, forbidden@) =~= Set::empty());
    }
    while i < length
        invariant
            n <= i <= length,
            free.len() + constrained.len() == i - n,
            free_slots(n as int, i as int, forbidden@).finite(),
            free_slots(n as int, i as int, forbidden@).len() == free.len(),
            forall|k: int|
                0 <= k < free.len() ==> n <= #[trigger] free@[k] < i && !forbidden@.contains(
                    free@[k],
                ),
            forall|k: int|
                0 <= k < constrained.len() ==> n <= #[trigger] constrained@[k] < i
                    && forbidden@.contains(constrained@[k]),
            forall|j: usize|
                n <= j < i && !#[trigger] forbidden@.contains(j) ==> free@.contains(j),
            free@.no_duplicates(),
            constrained@.no_duplicates(),
        decreases length - i,
    {
        if forbidden.contains(&i) {
            proof {
                assert(free_slots(n as int, i + 1, forbidden@) =~= free_slots(
                    n as int,
                    i as int,
                    forbidden@,
                ));
            }
            constrained.push(i);
        } else {
            proof {
                assert(free_slots(n as int, i + 1, forbidden@) =~= free_slots(
                    n as int,
                    i as int,
                    forbidden@,
                ).insert(i as int));
            }
            let ghost before = free@;
            free.push(i);
            proof {
                assert forall|j: usize|
                    n <= j < i + 1 && !#[trigger] forbidden@.contains(j) implies free@.contains(
                    j,
                ) by {
                    if j < i {
                        let k = choose|k: int| 0 <= k < before.len() && before[k] == j;
                        assert(free@[k] == j);
                    } else {
                        assert(free@[free.len() - 1] == j);
                    }
                }
            }
        }
        i = i + 1;
    }
    let ghost free_before = free@;
    let ghost constrained_before = constrained@;
    shuffle_positions(&mut free);
    shuffle_positions(&mut constrained);
    proof {
        lemma_permutation_members(free_before, free@);
        lemma_permutation_members(constrained_before, constrained@);
        assert forall|k: int| 0 <= k < free.len() implies n <= #[trigger] free@[k] < length
            && !forbidden@.contains(free@[k]) by {
            assert(free@.contains(free@[k]));
        }
        assert forall|k: int| 0 <= k < constrained.len() implies n <= #[trigger] constrained@[k]
            < length && forbidden@.contains(constrained@[k]) by {
            assert(constrained@.contains(constrained@[k]));
        }
    }
    let mut plan: Vec<bool> = Vec::new();
    let mut p: usize = 0;
    while p < length
        invariant
            p <= length,
            plan@.len() == p,
            forall|x: int| 0 <= x < p ==> !plan@[x],
        decreases length - p,
    {
        plan.push(false);
        p = p + 1;
    }
    proof {
        assert(marked(plan@) =~= Set::empty());
    }
    // Take from the free positions first.
    let from_free = if target <= free.len() {
        target
    } else {
        free.len()
    };
    let mut k: usize = 0;
    while k < from_free
        invariant
            plan@.len() == length,
            k <= from_free <= free.len(),
            from_free <= target,
            forall|k: int|
                0 <= k < free.len() ==> n <= #[trigger] free@[k] < length
                    && !forbidden@.contains(free@[k]),
            free@.no_duplicates(),
            forall|j: int| 0 <= j < k ==> plan@[#[trigger] free@[j] as int],
            forall|x: int|
                0 <= x < length && #[trigger] plan@[x] ==> exists|j: int|
                    0 <= j < k && free@[j] == x,
            marked(plan@).finite(),
            marked(plan@).len() == k,
        decreases from_free - k,
    {
        let q = free[k];
        proof {
            if plan@[q as int] {
                let j = choose|j: int| 0 <= j < k && free@[j] == q;
                assert(free@[j] == free@[k as int]);
            }
            assert(marked(plan@.update(q as int, true)) =~= marked(plan@).insert(q as int));
        }
        plan.set(q, true);
        k = k + 1;
    }
    // Fall back on forbidden positions only when the free ones are too few.
    let from_constrained = target - from_free;
    proof {
        assert(from_constrained <= constrained.len());
    }
    let mut c: usize = 0;
    while c < from_constrained
        invariant
            plan@.len() == length,
            from_free <= free.len(),
            c <= from_constrained <= constrained.len(),
            forall|k: int|
                0 <= k < free.len() ==> n <= #[trigger] free@[k] < length
                    && !forbidden@.contains(free@[k]),
            forall|k: int|
                0 <= k < constrained.len() ==> n <= #[trigger] constrained@[k] < length
                    && forbidden@.contains(constrained@[k]),
            constrained@.no_duplicates(),
            forall|j: int| 0 <= j < from_free ==> plan@[#[trigger] free@[j] as int],
            forall|x: int|
                0 <= x < length && #[trigger] plan@[x] ==> (exists|j: int|
                    0 <= j < from_free && free@[j] == x) || (exists|j: int|
                    0 <= j < c && constrained@[j] == x),
            marked(plan@).finite(),
            marked(plan@).len() == from_free + c,
        decreases from_constrained - c,
    {
        let q = constrained[c];
        proof {
            if plan@[q as int] {
                if exists|j: int| 0 <= j < from_free && free@[j] == q {
                    let j = choose|j: int| 0 <= j < from_free && free@[j] == q;
                    assert(!forbidden@.contains(free@[j]));
                } else {
                    let j = choose|j: int| 0 <= j < c && constrained@[j] == q;
                    assert(constrained@[j] == constrained@[c as int]);
                }
            }
            assert(marked(plan@.update(q as int, true)) =~= marked(plan@).insert(q as int));
        }
        plan.set(q, true);
        c = c + 1;
    }
    proof {
        let slots = free_slots(n as int, length as int, forbidden@);
        assert forall|x: int| 0 <= x < n implies !plan@[x] by {
            if plan@[x] {
                if exists|j: int| 0 <= j < from_free && free@[j] == x {
                    let j = choose|j: int| 0 <= j < from_free && free@[j] == x;
                    assert(n <= free@[j]);
                } else {
                    let j = choose|j: int| 0 <= j < from_constrained && constrained@[j] == x;
                    assert(n <= constrained@[j]);
                }
            }
        }
        if target <= free.len() {
            assert forall|x: int| marked(plan@).contains(x) implies slots.contains(x) by {
                let j = choose|j: int| 0 <= j < from_free && free@[j] == x;
                assert(!forbidden@.contains(free@[j]));
            }
        } else {
            assert forall|x: int| slots.contains(x) implies marked(plan@).contains(x) by {
                let u = x as usize;
                assert(!forbidden@.contains(u));
                assert(free_before.contains(u));
                assert(free@.contains(u));
                let j = choose|j: int| 0 <= j < free.len() && free@[j] == u;
                assert(plan@[free@[j] as int]);
            }
        }
    }
    plan
}

/// Builds a stream of symbol indices below `alphabet_len` that follows
/// `plan`: the first `n` indices are drawn freely; after them a marked
/// position repeats the index `n` steps earlier and any other position draws
/// one of the remaining indices.
pub fn build_index_sequence(n: usize, alphabet_len: usize, plan: &Vec<bool>) -> (s: Vec<usize>)
    requires
        n >= 1,
        alphabet_len >= 2,
    ensures
        s@.len() == plan@.len(),
        forall|i: int| 0 <= i < s@.len() ==> s@[i] < alphabet_len,
        forall|i: int| n <= i < s@.len() ==> (s@[i] == s@[i - n] <==> plan@[i]),
{
    let mut s: Vec<usize> = Vec::new();
    let mut i: usize = 0;
    while i < plan.len()
        invariant
            n >= 1,
            alphabet_len >= 2,
            i <= plan@.len(),
            s@.len() == i,
            forall|k: int| 0 <= k < i ==> s@[k] < alphabet_len,
            forall|k: int| n <= k < i ==> (s@[k] == s@[k - n] <==> plan@[k]),
        decreases plan@.len() - i,
    {
        let symbol = if i < n {
            random_below(alphabet_len)
        } else if plan[i] {
            s[i - n]
        } else {
            let previous = s[i - n];
            let r = random_below(alphabet_len - 1);
            if r >= previous {
                r + 1
            } else {
                r
            }
        };
        s.push(symbol);
        i = i + 1;
    }
    s
}

/// A stream of `length` symbol indices below `alphabet_len` whose
/// repetitions follow `plan_match_positions`.
fn generate_indices(
    n: usize,
    length: usize,
    alphabet_len: usize,
    forbidden: &HashSet<usize>,
) -> (s: Vec<usize>)
    requires
        1 <= n < length,
        alphabet_len >= 2,
    ensures
        s@.len() == length,
        forall|i: int| 0 <= i < s@.len() ==> s@[i] < alphabet_len,
        repeats_as_planned(s@, n as int, forbidden@),
{
    let plan = plan_match_positions(n, length, forbidden);
    let s = build_index_sequence(n, alphabet_len, &plan);
    proof {
        assert(match_positions(s@, n as int) =~= marked(plan@));
    }
    s
}

/// The distinct bytes of `v`, in order of first appearance.
fn distinct_bytes(v: &[u8]) -> (d: Vec<u8>)
    ensures
        d@.no_duplicates(),
        d@.to_set() == v@.to_set(),
        d@.len() == distinct_count(v@),
{
    let mut d: Vec<u8> = Vec::new();
    let mut i: usize = 0;
    while i < v.len()
        invariant
            i <= v@.len(),
            d@.no_duplicates(),
            forall|x: u8| d@.contains(x) <==> v@.subrange(0, i as int).contains(x),
        decreases v@.len() - i,
    {
        let x = v[i];
        let mut seen = false;
        let mut j: usize = 0;
        while j < d.len()
            invariant
                j <= d@.len(),
                seen <==> exists|k: int| 0 <= k < j && d@[k] == x,
            decreases d@.len() - j,
        {
            if d[j] == x {
                seen = true;
            }
            j = j + 1;
        }
        let ghost before = d@;
        if !seen {
            d.push(x);
        }
        proof {
            let prev = v@.subrange(0, i as int);
            let next = v@.subrange(0, i + 1);
            assert forall|y: u8| d@.contains(y) <==> next.contains(y) by {
                if d@.contains(y) {
                    let k = choose|k: int| 0 <= k < d@.len() && d@[k] == y;
                    if k < before.len() {
                        assert(before.contains(y));
                        let m = choose|m: int| 0 <= m < prev.len() && #[trigger] prev[m] == y;
                        assert(next[m] == y);
                    } else {
                        assert(next[i as int] == y);
                    }
                }
                if next.contains(y) {
                    let m = choose|m: int| 0 <= m < next.len() && #[trigger] next[m] == y;
                    if m < i {
                        assert(prev[m] == y);
                        assert(before.contains(y));
                        let k = choose|k: int| 0 <= k < before.len() && before[k] == y;
                        assert(d@[k] == y);
                    } else if seen {
                        let k = choose|k: int| 0 <= k < before.len() && before[k] == x;
                        assert(d@[k] == y);
                    } else {
                        assert(d@[d@.len() - 1] == y);
                    }
                }
            }
        }
        i = i + 1;
    }
    proof {
        assert(v@.subrange(0, v@.len() as int) =~= v@);
        assert(d@.to_set() =~= v@.to_set());
        d@.unique_seq_to_set();
    }
    d
}

/// Generates a stream of `length` symbols of `stimulus_set` in which
/// `planned_match_count(n, length)` positions repeat the symbol `n` steps
/// earlier, steered away from `forbidden_match_indices` as far as the count
/// allows. Fails on a lag that is zero or not below `length`, and on an
/// alphabet with fewer than two distinct symbols.
pub fn generate_single_nback_sequence(
    n: usize,
    length: usize,
    stimulus_set: &[u8],
    forbidden_match_indices: &HashSet<usize>,
) -> (r: Result<Vec<u8>, GenerationError>)
    ensures
        (n == 0 || n >= length) <==> r == Err::<Vec<u8>, GenerationError>(
            GenerationError::InvalidLag,
        ),
        (1 <= n < length && distinct_count(stimulus_set@) < 2) <==> r == Err::<
            Vec<u8>,
            GenerationError,
        >(GenerationError::AlphabetTooSmall),
        r is Ok ==> {
            let s = r->Ok_0@;
            &&& s.len() == length
            &&& forall|i: int| 0 <= i < s.len() ==> stimulus_set@.contains(#[trigger] s[i])
            &&& repeats_as_planned(s, n as int, forbidden_match_indices@)
            &&& band_reachable(n as int, length as int) ==> in_band(
                match_positions(s, n as int).len() as int,
                length as int,
            )
        },
{
    if n == 0 || n >= length {
        return Err(GenerationError::InvalidLag);
    }
    let symbols = distinct_bytes(stimulus_set);
    if symbols.len() < 2 {
        return Err(GenerationError::AlphabetTooSmall);
    }
    let indices = generate_indices(n, length, symbols.len(), forbidden_match_indices);
    let mut s: Vec<u8> = Vec::new();
    let mut i: usize = 0;
    while i < length
        invariant
            i <= length,
            indices@.len() == length,
            forall|k: int| 0 <= k < length ==> indices@[k] < symbols@.len(),
            s@.len() == i,
            forall|k: int| 0 <= k < i ==> s@[k] == symbols@[indices@[k] as int],
        decreases length - i,
    {
        s.push(symbols[indices[i]]);
        i = i + 1;
    }
    proof {
        assert forall|a: int, b: int|
            0 <= a < length && 0 <= b < length implies (s@[a] == s@[b] <==> indices@[a]
            == indices@[b]) by {
            if s@[a] == s@[b] && indices@[a] != indices@[b] {
                assert(symbols@.no_duplicates());
            }
        }
        assert(match_positions(s@, n as int) =~= match_positions(indices@, n as int));
        lemma_planned_count_fits(n as int, length as int);
        assert forall|i: int| 0 <= i < s@.len() implies stimulus_set@.contains(#[trigger] s@[i]) by {
            assert(symbols@.to_set().contains(symbols@[indices@[i] as int]));
        }
    }
    Ok(s)
}

/// The symbols of an auditory set, as strings.
fn auditory_symbols(set: AuditoryStimulusSet) -> (r: Vec<String>)
    ensures
        views_of(r@) == auditory_texts(set),
        distinct_count(auditory_texts(set)) >= 2,
{
    let table: Vec<&'static str> = match set {
        AuditoryStimulusSet::AllLetters => vec![
            "A", "B", "C", "D", "E", "F", "G", "H", "I", "J", "K", "L", "M", "N", "O", "P", "Q",
            "R", "S", "T", "U", "V", "W", "X", "Y", "Z",
        ],
        AuditoryStimulusSet::NonConfusingLetters => vec![
            "A", "K", "Q", "R", "U", "W", "H", "L", "O",
        ],
        AuditoryStimulusSet::TianGanDiZhi => vec![
            "jia", "yi", "bing", "ding", "wu", "ji", "geng", "xin", "ren", "gui", "zi", "chou",
            "yin", "mao", "chen", "si", "wu_branch", "wei", "shen", "you", "xu", "hai",
        ],
    };
    proof {
        let texts = auditory_texts(set);
        match set {
            AuditoryStimulusSet::AllLetters => {
                reveal_strlit("A");
                reveal_strlit("B");
                assert(texts[0][0] != texts[1][0]);
            },
            AuditoryStimulusSet::NonConfusingLetters => {
                reveal_strlit("A");
                reveal_strlit("K");
                assert(texts[0][0] != texts[1][0]);
            },
            AuditoryStimulusSet::TianGanDiZhi => {
                reveal_strlit("jia");
                reveal_strlit("yi");
                assert(texts[0][0] != texts[1][0]);
            },
        }
        lemma_two_distinct(texts, 0, 1);
    }
    let mut r: Vec<String> = Vec::new();
    let mut i: usize = 0;
    while i < table.len()
        invariant
            i <= table@.len(),
            table@ == auditory_table(set),
            r@.len() == i,
            forall|k: int| 0 <= k < i ==> (#[trigger] r@[k])@ == table@[k]@,
        decreases table@.len() - i,
    {
        r.push(table[i].to_owned());
        i = i + 1;
    }
    proof {
        assert(views_of(r@) =~= auditory_texts(set));
    }
    r
}

/// The strings of `v` with distinct texts, in order of first appearance.
fn distinct_texts(v: &Vec<String>) -> (d: Vec<String>)
    ensures
        views_of(d@).no_duplicates(),
        views_of(d@).to_set() == views_of(v@).to_set(),
        d@.len() == distinct_count(views_of(v@)),
{
    let ghost texts = views_of(v@);
    let mut d: Vec<String> = Vec::new();
    let mut i: usize = 0;
    while i < v.len()
        invariant
            i <= v@.len(),
            texts == views_of(v@),
            views_of(d@).no_duplicates(),
            forall|y: Seq<char>|
                views_of(d@).contains(y) <==> texts.subrange(0, i as int).contains(y),
        decreases v@.len() - i,
    {
        let mut seen = false;
        let mut j: usize = 0;
        while j < d.len()
            invariant
                j <= d@.len(),
                i < v@.len(),
                seen <==> exists|k: int| 0 <= k < j && (#[trigger] d@[k])@ == v@[i as int]@,
            decreases d@.len() - j,
        {
            if d[j] == v[i] {
                seen = true;
            }
            j = j + 1;
        }
        let ghost before = views_of(d@);
        let ghost x = v@[i as int]@;
        if !seen {
            d.push(v[i].clone());
        }
        proof {
            let prev = texts.subrange(0, i as int);
            let next = texts.subrange(0, i + 1);
            let now = views_of(d@);
            assert(next[i as int] == x);
            if !seen {
                assert(now =~= before.push(x));
                assert(!before.contains(x)) by {
                    if before.contains(x) {
                        let k = choose|k: int| 0 <= k < before.len() && before[k] == x;
                        assert(d@[k]@ == x);
                    }
                }
            } else {
                assert(now =~= before);
            }
            assert forall|y: Seq<char>| now.contains(y) <==> next.contains(y) by {
                if now.contains(y) {
                    let k = choose|k: int| 0 <= k < now.len() && now[k] == y;
                    if k < before.len() {
                        assert(before.contains(y));
                        let m = choose|m: int| 0 <= m < prev.len() && #[trigger] prev[m] == y;
                        assert(next[m] == y);
                    }
                }
                if next.contains(y) {
                    let m = choose|m: int| 0 <= m < next.len() && #[trigger] next[m] == y;
                    if m < i {
                        assert(prev[m] == y);
                        assert(before.contains(y));
                        let k = choose|k: int| 0 <= k < before.len() && before[k] == y;
                        assert(now[k] == y);
                    } else if seen {
                        let k = choose|k: int| 0 <= k < d@.len() && (#[trigger] d@[k])@ == x;
                        assert(now[k] == y);
                    } else {
                        assert(now[now.len() - 1] == y);
                    }
                }
            }
        }
        i = i + 1;
    }
    proof {
        assert(texts.subrange(0, v@.len() as int) =~= texts);
        assert(views_of(d@).to_set() =~= texts.to_set());
        views_of(d@).unique_seq_to_set();
    }
    d
}

/// The pair of index streams of a dual session: the auditory one with
/// symbols below `audio_len`, unconstrained; then the visual one, with grid
/// cell indices below `GRID_CELLS`, forbidden to repeat where the auditory
/// one repeats.
pub fn compose_index_sequences(n: usize, length: usize, audio_len: usize) -> (r: (
    Vec<usize>,
    Vec<usize>,
))
    requires
        1 <= n < length,
        audio_len >= 2,
    ensures
        r.0@.len() == length,
        r.1@.len() == length,
        forall|i: int| 0 <= i < length ==> r.0@[i] < audio_len,
        forall|i: int| 0 <= i < length ==> r.1@[i] < GRID_CELLS,
        repeats_as_planned(r.0@, n as int, Set::empty()),
        repeats_as_planned(r.1@, n as int, slots_of(match_positions(r.0@, n as int))),
{
    let none: HashSet<usize> = HashSet::new();
    let audio = generate_indices(n, length, audio_len, &none);
    let mut audio_matches: HashSet<usize> = HashSet::new();
    let mut i: usize = n;
    while i < length
        invariant
            n <= i <= length,
            audio@.len() == length,
            audio_matches@ == Set::new(
                |u: usize| n <= u < i && audio@[u as int] == audio@[u - n],
            ),
        decreases length - i,
    {
        if audio[i] == audio[i - n] {
            audio_matches.insert(i);
        }
        proof {
            assert(audio_matches@ =~= Set::new(
                |u: usize| n <= u < i + 1 && audio@[u as int] == audio@[u - n],
            ));
        }
        i = i + 1;
    }
    proof {
        assert(audio_matches@ =~= slots_of(match_positions(audio@, n as int)));
    }
    let visual = generate_indices(n, length, GRID_CELLS as usize, &audio_matches);
    (audio, visual)
}

/// Generates the auditory and the visual stream of a dual session: the
/// auditory one from the symbols of `auditory_stimulus_set`, the visual one
/// from the grid cell indices `0..GRID_CELLS`, steered away from repeating where
/// the auditory one repeats. Fails only on a lag that is zero or not below
/// `length`.
pub fn generate_dual_nback_sequences(
    n: usize,
    length: usize,
    auditory_stimulus_set: AuditoryStimulusSet,
) -> (r: Result<(Vec<String>, Vec<u8>), GenerationError>)
    ensures
        (n == 0 || n >= length) <==> r is Err,
        r is Err ==> r->Err_0 == GenerationError::InvalidLag,
        r is Ok ==> {
            let heard = views_of(r->Ok_0.0@);
            let seen = r->Ok_0.1@;
            &&& heard.len() == length
            &&& seen.len() == length
            &&& forall|i: int|
                0 <= i < length ==> auditory_texts(auditory_stimulus_set).contains(
                    #[trigger] heard[i],
                )
            &&& forall|i: int| 0 <= i < length ==> #[trigger] seen[i] < GRID_CELLS
            &&& dual_streams_follow_plan(heard, seen, n as int)
        },
{
    if n == 0 || n >= length {
        return Err(GenerationError::InvalidLag);
    }
    let table = auditory_symbols(auditory_stimulus_set);
    let symbols = distinct_texts(&table);
    let (audio_indices, visual_indices) = compose_index_sequences(n, length, symbols.len());
    let mut audio: Vec<String> = Vec::new();
    let mut visual: Vec<u8> = Vec::new();
    let mut i: usize = 0;
    while i < length
        invariant
            i <= length,
            audio_indices@.len() == length,
            visual_indices@.len() == length,
            forall|k: int| 0 <= k < length ==> audio_indices@[k] < symbols@.len(),
            forall|k: int| 0 <= k < length ==> visual_indices@[k] < GRID_CELLS,
            audio@.len() == i,
            visual@.len() == i,
            forall|k: int| 0 <= k < i ==> audio@[k] == symbols@[audio_indices@[k] as int],
            forall|k: int| 0 <= k < i ==> visual@[k] == visual_indices@[k],
        decreases length - i,
    {
        audio.push(symbols[audio_indices[i]].clone());
        visual.push(visual_indices[i] as u8);
        i = i + 1;
    }
    proof {
        let heard = views_of(audio@);
        let texts = views_of(symbols@);
        assert forall|a: int, b: int|
            0 <= a < length && 0 <= b < length implies (heard[a] == heard[b] <==> audio_indices@[a]
            == audio_indices@[b]) by {
            assert(heard[a] == texts[audio_indices@[a] as int]);
            assert(heard[b] == texts[audio_indices@[b] as int]);
        }
        lemma_same_repeats(audio_indices@, heard, n as int);
        lemma_same_repeats(visual_indices@, visual@, n as int);
        lemma_planned_count_fits(n as int, length as int);
        assert forall|i: int| 0 <= i < length implies auditory_texts(
            auditory_stimulus_set,
        ).contains(#[trigger] heard[i]) by {
            assert(heard[i] == texts[audio_indices@[i] as int]);
            assert(texts.to_set().contains(heard[i]));
            assert(views_of(table@).to_set().contains(heard[i]));
        }
    }
    Ok((audio, visual))
}

} // verus!
