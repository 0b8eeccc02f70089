use vstd::prelude::*;

use crate::problem::Problem;

verus! {

/// The candidate words of a source, one per line, each as its byte sequence.
pub open spec fn views(lines: Seq<Vec<u8>>) -> Seq<Seq<u8>> {
    lines.map_values(|v: Vec<u8>| v@)
}

/// Whether a candidate satisfies a slot's constraints: it is non-empty, its
/// byte length lies within the inclusive bounds, and, when the slot requires
/// a starting character, the candidate begins with that character's UTF-8
/// bytes.
pub open spec fn line_ok(line: Seq<u8>, min_chars: u8, max_chars: u8, letter: Option<Seq<u8>>) -> bool {
    &&& line.len() > 0
    &&& min_chars as nat <= line.len() <= max_chars as nat
    &&& match letter {
        Some(l) => l.is_prefix_of(line),
        None => true,
    }
}

/// The candidates that satisfy a slot's constraints, in source order.
pub open spec fn matches_of(
    lines: Seq<Seq<u8>>,
    min_chars: u8,
    max_chars: u8,
    letter: Option<Seq<u8>>,
) -> Seq<Seq<u8>> {
    lines.filter(|line: Seq<u8>| line_ok(line, min_chars, max_chars, letter))
}

/// The starting-character constraint of slot `j`: the j-th mnemonic letter
/// as its UTF-8 bytes, or none when the slot lies beyond the mnemonic.
pub open spec fn slot_letter(starting_chars: Seq<Seq<u8>>, j: int) -> Option<Seq<u8>> {
    if 0 <= j < starting_chars.len() {
        Some(starting_chars[j])
    } else {
        None
    }
}

/// How many slots a count pass covers: one per mnemonic letter, and a single
/// unconstrained slot when there is no mnemonic.
pub open spec fn num_slots(starting_chars: Seq<Seq<u8>>) -> nat {
    if starting_chars.len() == 0 {
        1
    } else {
        starting_chars.len()
    }
}

/// The number of candidates matching slot `j`.
pub open spec fn slot_count(
    lines: Seq<Seq<u8>>,
    min_chars: u8,
    max_chars: u8,
    starting_chars: Seq<Seq<u8>>,
    j: int,
) -> nat {
    matches_of(lines, min_chars, max_chars, slot_letter(starting_chars, j)).len()
}

/// Some slot's match count does not fit a `u32`.
pub open spec fn count_overflow(
    lines: Seq<Seq<u8>>,
    min_chars: u8,
    max_chars: u8,
    starting_chars: Seq<Seq<u8>>,
) -> bool {
    exists|j: int|
        0 <= j < num_slots(starting_chars) && slot_count(
            lines,
            min_chars,
            max_chars,
            starting_chars,
            j,
        ) > u32::MAX
}

/// Some slot has no matching candidate at all.
pub open spec fn count_missing(
    lines: Seq<Seq<u8>>,
    min_chars: u8,
    max_chars: u8,
    starting_chars: Seq<Seq<u8>>,
) -> bool {
    exists|j: int|
        0 <= j < num_slots(starting_chars) && slot_count(
            lines,
            min_chars,
            max_chars,
            starting_chars,
            j,
        ) == 0
}

/// A mnemonic letter without any matching candidate makes the whole count
/// pass fail: one zero slot count establishes `count_missing`, and
/// `word_counts` (and so `begin_phrase`) then owes `NoMatchingWords` for the
/// entire request, whatever the other slots counted -- no partial phrase.
pub proof fn lemma_slot_without_match_fails_request(
    lines: Seq<Seq<u8>>,
    min_chars: u8,
    max_chars: u8,
    starting_chars: Seq<Seq<u8>>,
    j: int,
)
    requires
        0 <= j < num_slots(starting_chars),
        slot_count(lines, min_chars, max_chars, starting_chars, j) == 0,
    ensures
        count_missing(lines, min_chars, max_chars, starting_chars),
{
}

/// Counting is repeatable: a second count pass over a source whose content
/// has not changed yields the same count for every slot.
pub proof fn lemma_count_idempotent(
    first_pass: Seq<Seq<u8>>,
    second_pass: Seq<Seq<u8>>,
    min_chars: u8,
    max_chars: u8,
    starting_chars: Seq<Seq<u8>>,
    j: int,
)
    requires
        first_pass == second_pass,
    ensures
        slot_count(first_pass, min_chars, max_chars, starting_chars, j) == slot_count(
            second_pass,
            min_chars,
            max_chars,
            starting_chars,
            j,
        ),
{
}

/// A word fetched at any valid rank satisfies its slot's constraints: it is
/// non-empty, its length lies within the bounds, and it starts with the
/// slot's letter when one is required.  In particular a slot with no
/// matching candidate can never yield a word, empty or otherwise.
pub proof fn lemma_selected_word_matches(
    lines: Seq<Seq<u8>>,
    min_chars: u8,
    max_chars: u8,
    letter: Option<Seq<u8>>,
    rank: int,
)
    requires
        0 <= rank < matches_of(lines, min_chars, max_chars, letter).len(),
    ensures
        line_ok(matches_of(lines, min_chars, max_chars, letter)[rank], min_chars, max_chars, letter),
{
    lines.lemma_filter_pred(|line: Seq<u8>| line_ok(line, min_chars, max_chars, letter), rank);
}

/// Whether `prefix` is a prefix of `line`, byte for byte.
fn has_prefix(line: &Vec<u8>, prefix: &Vec<u8>) -> (r: bool)
    ensures
        r == prefix@.is_prefix_of(line@),
{
    if prefix.len() > line.len() {
        return false;
    }
    let mut t: usize = 0;
    while t < prefix.len()
        invariant
            t <= prefix@.len() <= line@.len(),
            forall|p: int| 0 <= p < t ==> prefix@[p] == line@[p],
        decreases prefix@.len() - t,
    {
        if prefix[t] != line[t] {
            proof {
                assert(line@.subrange(0, prefix@.len() as int)[t as int] == line@[t as int]);
            }
            return false;
        }
        t += 1;
    }
    proof {
        assert(prefix@ =~= line@.subrange(0, prefix@.len() as int));
    }
    true
}

/// Count pass: one scan over all candidates, counting per slot how many
/// satisfy that slot's constraints.  Every slot must end with a count that is
/// positive and fits the counter, else the whole request fails.
pub fn word_counts(
    lines: &Vec<Vec<u8>>,
    max_chars: u8,
    min_chars: u8,
    starting_chars: &Vec<Vec<u8>>,
) -> (r: Result<Vec<u32>, Problem>)
    ensures
        ({
            let vs = views(lines@);
            let st = views(starting_chars@);
            let n = num_slots(st);
            match r {
                Ok(counts) => {
                    &&& counts@.len() == n
                    &&& forall|j: int|
                        0 <= j < n ==> counts@[j] as nat == slot_count(vs, min_chars, max_chars, st, j)
                    &&& !count_overflow(vs, min_chars, max_chars, st)
                    &&& !count_missing(vs, min_chars, max_chars, st)
                },
                Err(p) => {
                    ||| (p == Problem::WordFileTooLarge && count_overflow(vs, min_chars, max_chars, st))
                    ||| (p == Problem::NoMatchingWords && !count_overflow(vs, min_chars, max_chars, st)
                        && count_missing(vs, min_chars, max_chars, st))
                },
            }
        }),
{
    let ghost vs = views(lines@);
    let ghost st = views(starting_chars@);
    let num_results: usize = if starting_chars.len() == 0 {
        1
    } else {
        starting_chars.len()
    };
    let mut counts: Vec<u32> = Vec::new();
    while counts.len() < num_results
        invariant
            counts.len() <= num_results,
            forall|j: int| 0 <= j < counts.len() ==> counts@[j] == 0u32,
        decreases num_results - counts.len(),
    {
        counts.push(0u32);
    }
    proof {
        assert forall|j: int| 0 <= j < num_results implies slot_count(
            vs.take(0),
            min_chars,
            max_chars,
            st,
            j,
        ) == 0 by {
            let pred = |line: Seq<u8>| line_ok(line, min_chars, max_chars, slot_letter(st, j));
            vs.take(0).lemma_filter_len(pred);
            assert(vs.take(0).len() == 0);
        }
    }
    let mut li: usize = 0;
    while li < lines.len()
        invariant
            vs == views(lines@),
            st == views(starting_chars@),
            num_results == num_slots(st),
            li <= lines.len(),
            vs.len() == lines@.len(),
            counts.len() == num_results,
            forall|j: int|
                0 <= j < num_results ==> counts@[j] as nat == slot_count(
                    vs.take(li as int),
                    min_chars,
                    max_chars,
                    st,
                    j,
                ),
        decreases lines.len() - li,
    {
        let line = &lines[li];
        let len = line.len();
        proof {
            assert(vs[li as int] == lines@[li as int]@);
            assert(vs.take(li + 1) =~= vs.take(li as int).push(vs[li as int]));
        }
        if len > 0 {
            let mut j: usize = 0;
            while j < num_results
                invariant
                    vs == views(lines@),
                    st == views(starting_chars@),
                    num_results == num_slots(st),
                    li < lines.len(),
                    vs.len() == lines@.len(),
                    vs[li as int] == lines@[li as int]@,
                    line@ == vs[li as int],
                    len == lines@[li as int]@.len(),
                    len > 0,
                    j <= num_results,
                    counts.len() == num_results,
                    forall|k: int|
                        0 <= k < j ==> counts@[k] as nat == slot_count(
                            vs.take(li + 1),
                            min_chars,
                            max_chars,
                            st,
                            k,
                        ),
                    forall|k: int|
                        j <= k < num_results ==> counts@[k] as nat == slot_count(
                            vs.take(li as int),
                            min_chars,
                            max_chars,
                            st,
                            k,
                        ),
                decreases num_results - j,
            {
                let ghost pred = |line: Seq<u8>| line_ok(line, min_chars, max_chars, slot_letter(st, j as int));
                proof {
                    assert(vs.take(li + 1) =~= vs.take(li as int).push(vs[li as int]));
                    vs.take(li as int).lemma_filter_push(vs[li as int], pred);
                    assert(vs.take(li + 1).filter(pred) == vs.take(li as int).push(vs[li as int]).filter(pred));
                }
                let mut skip = false;
                if usize::from(min_chars) <= len && len <= usize::from(max_chars) {
                    if j < starting_chars.len() {
                        if !has_prefix(line, &starting_chars[j]) {
                            skip = true;
                        }
                    }
                } else {
                    skip = true;
                }
                proof {
                    assert(skip == !pred(vs[li as int]));
                }
                if !skip {
                    if counts[j] == u32::MAX {
                        proof {
                            let full = matches_of(vs, min_chars, max_chars, slot_letter(st, j as int));
                            vs.take(li + 1).lemma_filter_monotone(vs, pred);
                            assert(vs.take(li + 1).is_prefix_of(vs)) by {
                                assert(vs.take(li + 1) =~= vs.subrange(0, li + 1));
                            }
                            assert(slot_count(vs, min_chars, max_chars, st, j as int)
                                >= slot_count(vs.take(li + 1), min_chars, max_chars, st, j as int));
                            assert(slot_count(vs, min_chars, max_chars, st, j as int) > u32::MAX);
                        }
                        return Err(Problem::WordFileTooLarge);
                    }
                    let c = counts[j];
                    counts.set(j, c + 1);
                }
                j += 1;
            }
        } else {
            proof {
                assert forall|k: int| 0 <= k < num_results implies counts@[k] as nat == slot_count(
                    vs.take(li + 1),
                    min_chars,
                    max_chars,
                    st,
                    k,
                ) by {
                    let pred = |line: Seq<u8>| line_ok(line, min_chars, max_chars, slot_letter(st, k));
                    vs.take(li as int).lemma_filter_push(vs[li as int], pred);
                }
            }
        }
        li += 1;
    }
    proof {
        assert(vs.take(lines@.len() as int) =~= vs);
    }
    let mut j: usize = 0;
    while j < num_results
        invariant
            vs == views(lines@),
            st == views(starting_chars@),
            num_results == num_slots(st),
            counts.len() == num_results,
            forall|k: int|
                0 <= k < num_results ==> counts@[k] as nat == slot_count(vs, min_chars, max_chars, st, k),
            forall|k: int| 0 <= k < j ==> counts@[k] != 0u32,
        decreases num_results - j,
    {
        if counts[j] == 0 {
            proof {
                assert(slot_count(vs, min_chars, max_chars, st, j as int) == 0);
                assert(count_missing(vs, min_chars, max_chars, st));
                assert forall|k: int|
                    0 <= k < num_slots(st) implies slot_count(vs, min_chars, max_chars, st, k)
                    <= u32::MAX by {
                    assert(counts@[k] as nat == slot_count(vs, min_chars, max_chars, st, k));
                }
                assert(!count_overflow(vs, min_chars, max_chars, st));
            }
            return Err(Problem::NoMatchingWords);
        }
        j += 1;
    }
    proof {
        assert forall|k: int|
            0 <= k < num_slots(st) implies slot_count(vs, min_chars, max_chars, st, k) <= u32::MAX
            && slot_count(vs, min_chars, max_chars, st, k) != 0 by {
            assert(counts@[k] as nat == slot_count(vs, min_chars, max_chars, st, k));
            assert(counts@[k] != 0u32);
        }
        assert(!count_overflow(vs, min_chars, max_chars, st));
        assert(!count_missing(vs, min_chars, max_chars, st));
    }
    Ok(counts)
}

pub(crate) fn copy_bytes(src: &Vec<u8>) -> (r: Vec<u8>)
    ensures
        r@ == src@,
{
    let mut r: Vec<u8> = Vec::new();
    let mut i: usize = 0;
    while i < src.len()
        invariant
            i <= src.len(),
            r@ == src@.take(i as int),
        decreases src.len() - i,
    {
        r.push(src[i]);
        proof {
            assert(src@.take(i + 1) =~= src@.take(i as int).push(src@[i as int]));
        }
        i += 1;
    }
    proof {
        assert(src@.take(src@.len() as int) =~= src@);
    }
    r
}

/// Whether every slot's running counter has passed its target rank, that is,
/// whether every slot's word has been recorded.
fn all_found(counters: &Vec<u64>, indices: &Vec<u32>) -> (r: bool)
    requires
        counters@.len() == indices@.len(),
    ensures
        r == (forall|j: int| 0 <= j < indices@.len() ==> counters@[j] > indices@[j]),
{
    let mut j: usize = 0;
    while j < indices.len()
        invariant
            counters@.len() == indices@.len(),
            j <= indices@.len(),
            forall|t: int| 0 <= t < j ==> counters@[t] > indices@[t],
        decreases indices@.len() - j,
    {
        if counters[j] <= indices[j] as u64 {
            return false;
        }
        j += 1;
    }
    true
}

/// Fetch pass: rescan the source and record, for each slot, the candidate at
/// that slot's target rank among the candidates matching the slot, in source
/// order.  The scan stops as soon as every slot's word is found; reaching the
/// end of the source first means a rank was out of range, which is fatal.
pub fn words(
    lines: &Vec<Vec<u8>>,
    max_chars: u8,
    min_chars: u8,
    starting_chars: &Vec<Vec<u8>>,
    indices: &Vec<u32>,
) -> (r: Result<Vec<Vec<u8>>, Problem>)
    ensures
        ({
            let vs = views(lines@);
            let st = views(starting_chars@);
            let k = indices@.len();
            match r {
                Ok(ws) => {
                    &&& k > 0
                    &&& ws@.len() == k
                    &&& forall|j: int|
                        0 <= j < k ==> (indices@[j] as nat) < slot_count(vs, min_chars, max_chars, st, j)
                    &&& forall|j: int|
                        0 <= j < k ==> ws@[j]@ == matches_of(vs, min_chars, max_chars, slot_letter(st, j))[indices@[j] as int]
                },
                Err(p) => {
                    &&& p == Problem::UnexpectedEndOfWordFile
                    &&& (k == 0 || exists|j: int|
                        0 <= j < k && (indices@[j] as nat) >= slot_count(vs, min_chars, max_chars, st, j))
                },
            }
        }),
{
    let ghost vs = views(lines@);
    let ghost st = views(starting_chars@);
    let k = indices.len();
    let mut counters: Vec<u64> = Vec::new();
    while counters.len() < k
        invariant
            counters.len() <= k,
            forall|j: int| 0 <= j < counters.len() ==> counters@[j] == 0u64,
        decreases k - counters.len(),
    {
        counters.push(0u64);
    }
    let mut ws: Vec<Vec<u8>> = Vec::new();
    while ws.len() < k
        invariant
            ws.len() <= k,
        decreases k - ws.len(),
    {
        ws.push(Vec::new());
    }
    proof {
        assert forall|j: int| 0 <= j < k implies slot_count(vs.take(0), min_chars, max_chars, st, j)
            == 0 by {
            let pred = |line: Seq<u8>| line_ok(line, min_chars, max_chars, slot_letter(st, j));
            vs.take(0).lemma_filter_len(pred);
        }
        if k > 0 {
            assert(counters@[0] <= indices@[0]);
        }
    }
    let mut li: usize = 0;
    while li < lines.len()
        invariant
            vs == views(lines@),
            st == views(starting_chars@),
            li <= lines.len(),
            vs.len() == lines@.len(),
            k == indices@.len(),
            counters.len() == k,
            ws.len() == k,
            forall|j: int|
                0 <= j < k ==> counters@[j] as nat == slot_count(
                    vs.take(li as int),
                    min_chars,
                    max_chars,
                    st,
                    j,
                ),
            forall|j: int|
                0 <= j < k && counters@[j] > indices@[j] ==> {
                    &&& (indices@[j] as nat) < slot_count(vs, min_chars, max_chars, st, j)
                    &&& ws@[j]@ == matches_of(vs, min_chars, max_chars, slot_letter(st, j))[indices@[j] as int]
                },
            k == 0 || exists|j: int| 0 <= j < k && counters@[j] <= indices@[j],
        decreases lines.len() - li,
    {
        let line = &lines[li];
        let len = line.len();
        proof {
            assert(vs[li as int] == lines@[li as int]@);
            assert(vs.take(li + 1) =~= vs.take(li as int).push(vs[li as int]));
        }
        if len > 0 {
            let mut j: usize = 0;
            while j < k
                invariant
                    vs == views(lines@),
                    st == views(starting_chars@),
                    li < lines.len(),
                    vs.len() == lines@.len(),
                    vs[li as int] == lines@[li as int]@,
                    line@ == vs[li as int],
                    len == lines@[li as int]@.len(),
                    len > 0,
                    j <= k,
                    k == indices@.len(),
                    counters.len() == k,
                    ws.len() == k,
                    forall|t: int|
                        0 <= t < j ==> counters@[t] as nat == slot_count(
                            vs.take(li + 1),
                            min_chars,
                            max_chars,
                            st,
                            t,
                        ),
                    forall|t: int|
                        j <= t < k ==> counters@[t] as nat == slot_count(
                            vs.take(li as int),
                            min_chars,
                            max_chars,
                            st,
                            t,
                        ),
                    forall|t: int|
                        0 <= t < k && counters@[t] > indices@[t] ==> {
                            &&& (indices@[t] as nat) < slot_count(vs, min_chars, max_chars, st, t)
                            &&& ws@[t]@ == matches_of(vs, min_chars, max_chars, slot_letter(st, t))[indices@[t] as int]
                        },
                decreases k - j,
            {
                let ghost pred = |line: Seq<u8>| line_ok(line, min_chars, max_chars, slot_letter(st, j as int));
                proof {
                    assert(vs.take(li + 1) =~= vs.take(li as int).push(vs[li as int]));
                    vs.take(li as int).lemma_filter_push(vs[li as int], pred);
                }
                let mut skip = false;
                if usize::from(min_chars) <= len && len <= usize::from(max_chars) {
                    if j < starting_chars.len() {
                        if !has_prefix(line, &starting_chars[j]) {
                            skip = true;
                        }
                    }
                } else {
                    skip = true;
                }
                proof {
                    assert(skip == !pred(vs[li as int]));
                }
                if !skip {
                    let c = counters[j];
                    if c == indices[j] as u64 {
                        ws.set(j, copy_bytes(line));
                        proof {
                            let pre = matches_of(vs.take(li + 1), min_chars, max_chars, slot_letter(st, j as int));
                            let full = matches_of(vs, min_chars, max_chars, slot_letter(st, j as int));
                            assert(pre == vs.take(li as int).filter(pred).push(vs[li as int]));
                            assert(pre[indices@[j as int] as int] == vs[li as int]);
                            assert(vs.take(li + 1).is_prefix_of(vs)) by {
                                assert(vs.take(li + 1) =~= vs.subrange(0, li + 1));
                            }
                            vs.take(li + 1).lemma_filter_monotone(vs, pred);
                            assert(pre =~= full.subrange(0, pre.len() as int));
                            assert(full[indices@[j as int] as int] == vs[li as int]);
                        }
                    }
                    proof {
                        vs.take(li as int).lemma_filter_len(pred);
                        assert(counters@[j as int] <= li);
                    }
                    let c2 = counters[j];
                    counters.set(j, c2 + 1);
                    proof {
                        assert forall|t: int|
                            0 <= t < k && counters@[t] > indices@[t] implies ((indices@[t] as nat)
                            < slot_count(vs, min_chars, max_chars, st, t) && ws@[t]@ == matches_of(
                            vs,
                            min_chars,
                            max_chars,
                            slot_letter(st, t),
                        )[indices@[t] as int]) by {
                            if t == j as int && c <= indices@[t] {
                                assert(c == indices@[t] as u64);
                                assert((indices@[t] as nat) < slot_count(vs, min_chars, max_chars, st, t));
                                assert(ws@[t]@ == vs[li as int]);
                                assert(matches_of(vs, min_chars, max_chars, slot_letter(st, t))[indices@[t] as int] == vs[li as int]);
                                assert(ws@[t]@ == matches_of(vs, min_chars, max_chars, slot_letter(st, t))[indices@[t] as int]);
                            }
                        }
                    }
                }
                j += 1;
            }
        } else {
            proof {
                assert forall|t: int| 0 <= t < k implies counters@[t] as nat == slot_count(
                    vs.take(li + 1),
                    min_chars,
                    max_chars,
                    st,
                    t,
                ) by {
                    let pred = |line: Seq<u8>| line_ok(line, min_chars, max_chars, slot_letter(st, t));
                    vs.take(li as int).lemma_filter_push(vs[li as int], pred);
                }
            }
        }
        if k > 0 {
            if all_found(&counters, &indices) {
                return Ok(ws);
            }
        }
        li += 1;
    }
    proof {
        assert(vs.take(lines@.len() as int) =~= vs);
        if k > 0 {
            let j = choose|j: int| 0 <= j < k && counters@[j] <= indices@[j];
            assert(counters@[j] as nat == slot_count(vs, min_chars, max_chars, st, j));
            assert((indices@[j] as nat) >= slot_count(vs, min_chars, max_chars, st, j));
        }
    }
    Err(Problem::UnexpectedEndOfWordFile)
}

} // verus!
