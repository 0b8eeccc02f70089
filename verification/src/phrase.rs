use vstd::prelude::*;

use crate::letters::{letters_of, split_letters};
use crate::problem::Problem;
use crate::selector::{
    copy_bytes, count_missing, count_overflow, matches_of, num_slots, slot_count, slot_letter,
    views, word_counts, words,
};

verus! {

/// Which kind of passphrase a request asks for.
#[derive(Clone, Debug)]
pub enum Phrase {
    /// Pick one seed word whose length equals the requested word count; its
    /// letters become the mnemonic for a second selection round.
    DynamicMnemonic,
    /// The caller supplies the mnemonic as UTF-8 text; its characters are
    /// the mnemonic letters, one per output word.
    FixedMnemonic(Vec<u8>),
    /// No mnemonic: every word is drawn from the same unconstrained pool.
    Random,
}

/// A request's configuration: length bounds, word count, and mode.
#[derive(Clone, Debug)]
pub struct Prefs {
    pub max_chars: u8,
    pub min_chars: u8,
    pub num_words: u8,
    pub phrase: Phrase,
}

/// A selection stage whose match counts are known and which now needs one
/// uniformly random rank per entry of `maxes`, each drawn from the inclusive
/// range `[0, maxes[i]]`.
pub struct Pending {
    pub min_chars: u8,
    pub max_chars: u8,
    /// One entry per slot: the UTF-8 bytes of that slot's required starting
    /// character.  Empty when no slot is letter-constrained.
    pub starting_chars: Vec<Vec<u8>>,
    pub maxes: Vec<u32>,
    /// Whether the words fetched with these ranks are the final phrase, or
    /// only the seed word whose letters become the mnemonic.
    pub last_stage: bool,
}

/// What a request needs next: more random ranks, or nothing because the
/// phrase is complete.
pub enum Step {
    NeedRanks(Pending),
    Done(Vec<Vec<u8>>),
}

/// The lower length bound of a request's first count pass.
pub open spec fn stage_min(prefs: Prefs) -> u8 {
    if prefs.phrase is DynamicMnemonic {
        prefs.num_words
    } else {
        prefs.min_chars
    }
}

/// The upper length bound of a request's first count pass.
pub open spec fn stage_max(prefs: Prefs) -> u8 {
    if prefs.phrase is DynamicMnemonic {
        prefs.num_words
    } else {
        prefs.max_chars
    }
}

/// The starting letters of a request's first count pass: the mnemonic's
/// characters for a fixed-mnemonic request, none otherwise.
pub open spec fn stage_letters(prefs: Prefs) -> Seq<Seq<u8>> {
    if prefs.phrase is FixedMnemonic {
        letters_of(prefs.phrase->FixedMnemonic_0@)
    } else {
        Seq::<Seq<u8>>::empty()
    }
}

/// How many ranks a request's first stage asks for: one per output word,
/// except that the dynamic-mnemonic mode first needs a single seed word.
pub open spec fn stage_rank_count(prefs: Prefs) -> nat {
    match prefs.phrase {
        Phrase::DynamicMnemonic => 1,
        Phrase::FixedMnemonic(m) => num_slots(letters_of(m@)),
        Phrase::Random => prefs.num_words as nat,
    }
}

/// The pending stage `p` asks for `n` ranks, one per slot of the constraint
/// set `(min, max, st)`, each bounded by that slot's match count.
pub open spec fn pending_matches(
    p: Pending,
    vs: Seq<Seq<u8>>,
    min_chars: u8,
    max_chars: u8,
    st: Seq<Seq<u8>>,
    n: nat,
    last_stage: bool,
) -> bool {
    &&& p.min_chars == min_chars
    &&& p.max_chars == max_chars
    &&& views(p.starting_chars@) == st
    &&& p.last_stage == last_stage
    &&& p.maxes@.len() == n
    &&& forall|i: int|
        0 <= i < n ==> p.maxes@[i] as nat + 1 == slot_count(vs, min_chars, max_chars, st, i)
}

/// Turn the slot counts of a completed count pass into the sampler bounds of
/// the next stage: a rank for a slot with `c` matches is drawn from
/// `[0, c - 1]`.
fn rank_maxes(counts: &Vec<u32>) -> (maxes: Vec<u32>)
    requires
        forall|j: int| 0 <= j < counts@.len() ==> counts@[j] >= 1u32,
    ensures
        maxes@.len() == counts@.len(),
        forall|j: int| 0 <= j < counts@.len() ==> maxes@[j] as nat + 1 == counts@[j] as nat,
{
    let mut maxes: Vec<u32> = Vec::new();
    let mut j: usize = 0;
    while j < counts.len()
        invariant
            j <= counts@.len(),
            maxes@.len() == j,
            forall|t: int| 0 <= t < counts@.len() ==> counts@[t] >= 1u32,
            forall|t: int| 0 <= t < j ==> maxes@[t] as nat + 1 == counts@[t] as nat,
        decreases counts@.len() - j,
    {
        maxes.push(counts[j] - 1);
        j += 1;
    }
    maxes
}

/// Start a request: run the first count pass for the mode's constraints and
/// report how many ranks the caller must now sample, with each rank's
/// inclusive bound.  Fails when some slot's count is zero or overflows.
pub fn begin_phrase(lines: &Vec<Vec<u8>>, prefs: &Prefs) -> (r: Result<Pending, Problem>)
    ensures
        ({
            let vs = views(lines@);
            let min = stage_min(*prefs);
            let max = stage_max(*prefs);
            let st = stage_letters(*prefs);
            &&& (r is Ok <==> !count_overflow(vs, min, max, st) && !count_missing(vs, min, max, st))
            &&& (r is Ok ==> pending_matches(
                r->Ok_0,
                vs,
                min,
                max,
                st,
                stage_rank_count(*prefs),
                !(prefs.phrase is DynamicMnemonic),
            ))
            &&& (r is Err ==> {
                ||| (r->Err_0 == Problem::WordFileTooLarge && count_overflow(vs, min, max, st))
                ||| (r->Err_0 == Problem::NoMatchingWords && !count_overflow(vs, min, max, st)
                    && count_missing(vs, min, max, st))
            })
        }),
{
    let ghost vs = views(lines@);
    match &prefs.phrase {
        Phrase::Random => {
            let no_letters: Vec<Vec<u8>> = Vec::new();
            proof {
                assert(views(no_letters@) =~= Seq::<Seq<u8>>::empty());
            }
            let counts = match word_counts(lines, prefs.max_chars, prefs.min_chars, &no_letters) {
                Ok(counts) => counts,
                Err(p) => {
                    return Err(p);
                },
            };
            let count = counts[0];
            let mut maxes: Vec<u32> = Vec::new();
            let mut t: usize = 0;
            let n = usize::from(prefs.num_words);
            while t < n
                invariant
                    t <= n,
                    maxes@.len() == t,
                    count as nat == slot_count(
                        vs,
                        prefs.min_chars,
                        prefs.max_chars,
                        Seq::<Seq<u8>>::empty(),
                        0,
                    ),
                    count >= 1u32,
                    forall|i: int| 0 <= i < t ==> maxes@[i] as nat + 1 == count as nat,
                decreases n - t,
            {
                maxes.push(count - 1);
                t += 1;
            }
            proof {
                assert forall|i: int| 0 <= i < n implies maxes@[i] as nat + 1 == slot_count(
                    vs,
                    prefs.min_chars,
                    prefs.max_chars,
                    Seq::<Seq<u8>>::empty(),
                    i,
                ) by {
                    assert(slot_letter(Seq::<Seq<u8>>::empty(), i) == slot_letter(
                        Seq::<Seq<u8>>::empty(),
                        0,
                    ));
                }
            }
            Ok(
                Pending {
                    min_chars: prefs.min_chars,
                    max_chars: prefs.max_chars,
                    starting_chars: no_letters,
                    maxes,
                    last_stage: true,
                },
            )
        },
        Phrase::FixedMnemonic(m) => {
            let letters = split_letters(m);
            proof {
                assert(prefs.phrase->FixedMnemonic_0@ == m@);
                assert(views(letters@) == letters_of(m@));
            }
            let counts = match word_counts(lines, prefs.max_chars, prefs.min_chars, &letters) {
                Ok(counts) => counts,
                Err(p) => {
                    return Err(p);
                },
            };
            let maxes = rank_maxes(&counts);
            proof {
                assert(views(letters@) == letters_of(m@));
                assert forall|i: int| 0 <= i < maxes@.len() implies maxes@[i] as nat + 1
                    == slot_count(vs, prefs.min_chars, prefs.max_chars, letters_of(m@), i) by {
                    assert(maxes@[i] as nat + 1 == counts@[i] as nat);
                    assert(counts@[i] as nat == slot_count(
                        vs,
                        prefs.min_chars,
                        prefs.max_chars,
                        letters_of(m@),
                        i,
                    ));
                }
            }
            Ok(
                Pending {
                    min_chars: prefs.min_chars,
                    max_chars: prefs.max_chars,
                    starting_chars: letters,
                    maxes,
                    last_stage: true,
                },
            )
        },
        Phrase::DynamicMnemonic => {
            let no_letters: Vec<Vec<u8>> = Vec::new();
            proof {
                assert(views(no_letters@) =~= Seq::<Seq<u8>>::empty());
            }
            let counts = match word_counts(lines, prefs.num_words, prefs.num_words, &no_letters) {
                Ok(counts) => counts,
                Err(p) => {
                    return Err(p);
                },
            };
            let maxes = rank_maxes(&counts);
            proof {
                assert forall|i: int| 0 <= i < maxes@.len() implies maxes@[i] as nat + 1
                    == slot_count(vs, prefs.num_words, prefs.num_words, Seq::<Seq<u8>>::empty(), i) by {
                    assert(maxes@[i] as nat + 1 == counts@[i] as nat);
                    assert(counts@[i] as nat == slot_count(
                        vs,
                        prefs.num_words,
                        prefs.num_words,
                        Seq::<Seq<u8>>::empty(),
                        i,
                    ));
                }
            }
            Ok(
                Pending {
                    min_chars: prefs.num_words,
                    max_chars: prefs.num_words,
                    starting_chars: no_letters,
                    maxes,
                    last_stage: false,
                },
            )
        },
    }
}

/// Feed the sampled ranks of a pending stage back into the request.  For a
/// final stage the fetch pass yields the finished phrase; for a seed stage it
/// yields the seed word, whose letters then become the mnemonic of a second,
/// final stage whose counts are computed here.
pub fn supply_ranks(lines: &Vec<Vec<u8>>, prefs: &Prefs, pending: Pending, ranks: &Vec<u32>) -> (r:
    Result<Step, Problem>)
    ensures
        ({
            let vs = views(lines@);
            let pmin = pending.min_chars;
            let pmax = pending.max_chars;
            let pst = views(pending.starting_chars@);
            let k = ranks@.len();
            let ranks_ok = k > 0 && forall|j: int|
                0 <= j < k ==> (ranks@[j] as nat) < slot_count(vs, pmin, pmax, pst, j);
            let seed = matches_of(vs, pmin, pmax, slot_letter(pst, 0))[ranks@[0] as int];
            &&& (pending.last_stage ==> match r {
                Ok(step) => {
                    &&& step is Done
                    &&& ranks_ok
                    &&& step->Done_0@.len() == k
                    &&& forall|j: int|
                        0 <= j < k ==> step->Done_0@[j]@ == matches_of(
                            vs,
                            pmin,
                            pmax,
                            slot_letter(pst, j),
                        )[ranks@[j] as int]
                },
                Err(p) => p == Problem::UnexpectedEndOfWordFile && !ranks_ok,
            })
            &&& (!pending.last_stage ==> match r {
                Ok(step) => {
                    &&& step is NeedRanks
                    &&& ranks_ok
                    &&& !count_overflow(vs, prefs.min_chars, prefs.max_chars, letters_of(seed))
                    &&& !count_missing(vs, prefs.min_chars, prefs.max_chars, letters_of(seed))
                    &&& pending_matches(
                        step->NeedRanks_0,
                        vs,
                        prefs.min_chars,
                        prefs.max_chars,
                        letters_of(seed),
                        num_slots(letters_of(seed)),
                        true,
                    )
                },
                Err(p) => {
                    ||| (p == Problem::UnexpectedEndOfWordFile && !ranks_ok)
                    ||| (p == Problem::WordFileTooLarge && ranks_ok && count_overflow(
                        vs,
                        prefs.min_chars,
                        prefs.max_chars,
                        letters_of(seed),
                    ))
                    ||| (p == Problem::NoMatchingWords && ranks_ok && !count_overflow(
                        vs,
                        prefs.min_chars,
                        prefs.max_chars,
                        letters_of(seed),
                    ) && count_missing(vs, prefs.min_chars, prefs.max_chars, letters_of(seed)))
                },
            })
        }),
{
    let ws = match words(lines, pending.max_chars, pending.min_chars, &pending.starting_chars, ranks) {
        Ok(ws) => ws,
        Err(p) => {
            return Err(p);
        },
    };
    if pending.last_stage {
        Ok(Step::Done(ws))
    } else {
        let seed = copy_bytes(&ws[0]);
        let letters = split_letters(&seed);
        let counts = match word_counts(lines, prefs.max_chars, prefs.min_chars, &letters) {
            Ok(counts) => counts,
            Err(p) => {
                return Err(p);
            },
        };
        let maxes = rank_maxes(&counts);
        proof {
            assert(seed@ == matches_of(
                views(lines@),
                pending.min_chars,
                pending.max_chars,
                slot_letter(views(pending.starting_chars@), 0),
            )[ranks@[0] as int]);
            assert(views(letters@) == letters_of(seed@));
            assert forall|i: int| 0 <= i < maxes@.len() implies maxes@[i] as nat + 1 == slot_count(
                views(lines@),
                prefs.min_chars,
                prefs.max_chars,
                letters_of(seed@),
                i,
            ) by {
                assert(maxes@[i] as nat + 1 == counts@[i] as nat);
                assert(counts@[i] as nat == slot_count(
                    views(lines@),
                    prefs.min_chars,
                    prefs.max_chars,
                    letters_of(seed@),
                    i,
                ));
            }
        }
        Ok(
            Step::NeedRanks(
                Pending {
                    min_chars: prefs.min_chars,
                    max_chars: prefs.max_chars,
                    starting_chars: letters,
                    maxes,
                    last_stage: true,
                },
            ),
        )
    }
}

} // verus!
