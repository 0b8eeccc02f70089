use vstd::prelude::*;

use crate::phrase::{Phrase, Prefs};
use crate::problem::Problem;
use crate::selector::copy_bytes;

verus! {

// ASCII bytes of the option tokens and of the digits.
pub const DASH: u8 = 45;
pub const PLUS: u8 = 43;
pub const ZERO: u8 = 48;
pub const NINE: u8 = 57;
pub const UC_M: u8 = 77;
pub const LC_A: u8 = 97;
pub const LC_E: u8 = 101;
pub const LC_H: u8 = 104;
pub const LC_I: u8 = 105;
pub const LC_L: u8 = 108;
pub const LC_M: u8 = 109;
pub const LC_N: u8 = 110;
pub const LC_P: u8 = 112;
pub const LC_R: u8 = 114;
pub const LC_W: u8 = 119;
pub const LC_X: u8 = 120;

/// What the previous command-line token makes the next token mean.
#[derive(Clone, Copy, Debug, PartialEq, Eq, Structural)]
pub enum ArgState {
    /// The next token is an option.
    BeginArg,
    /// The next token is the value of `-max`.
    Max,
    /// The next token is the value of `-min`.
    Min,
    /// The next token is the value of `-n`.
    Num,
    /// The next token is the value of `-M`.
    Mnemonic,
    /// The next token is the value of `-w`.
    Words,
}

/// What processing one command-line token asks of the caller: go on in the
/// given state, or show the usage help and stop successfully.
#[derive(Clone, Copy, Debug, PartialEq, Eq, Structural)]
pub enum ArgOutcome {
    Continue(ArgState),
    Help,
}

pub open spec fn is_digit(b: u8) -> bool {
    ZERO <= b <= NINE
}

pub open spec fn all_digits(s: Seq<u8>) -> bool {
    forall|i: int| 0 <= i < s.len() ==> is_digit(#[trigger] s[i])
}

/// The numeric value of one digit byte; non-digits count as zero.
pub open spec fn digit_of(b: u8) -> nat {
    if is_digit(b) {
        (b - ZERO) as nat
    } else {
        0
    }
}

/// The value of a decimal digit string.
pub open spec fn digits_val(s: Seq<u8>) -> nat
    decreases s.len(),
{
    if s.len() == 0 {
        0
    } else {
        digits_val(s.drop_last()) * 10 + digit_of(s.last())
    }
}

/// The number an option value denotes: an optional leading plus sign, then
/// one or more decimal digits, with a value that fits in a `u8`.
pub open spec fn parse_u8(s: Seq<u8>) -> Option<u8> {
    let t = if s.len() > 0 && s[0] == PLUS {
        s.drop_first()
    } else {
        s
    };
    if t.len() > 0 && all_digits(t) && digits_val(t) <= 255 {
        Some(digits_val(t) as u8)
    } else {
        None
    }
}

/// A digit string is worth at least as much as any of its prefixes.
proof fn lemma_digits_val_prefix(t: Seq<u8>, i: int)
    requires
        0 <= i <= t.len(),
    ensures
        digits_val(t.take(i)) <= digits_val(t),
    decreases t.len() - i,
{
    if i == t.len() {
        assert(t.take(i) =~= t);
    } else {
        assert(t.take(i + 1).drop_last() =~= t.take(i));
        lemma_digits_val_prefix(t, i + 1);
    }
}

/// Read a numeric option value.  Accepted exactly when the token is an
/// optional plus sign followed by decimal digits denoting a value below 256;
/// anything else is a usage error.
pub fn process_int_arg(arg: &[u8]) -> (r: Result<u8, Problem>)
    ensures
        match r {
            Ok(v) => parse_u8(arg@) == Some(v),
            Err(p) => p == Problem::Usage && parse_u8(arg@) is None,
        },
{
    let ghost s = arg@;
    let mut start: usize = 0;
    if arg.len() > 0 && arg[0] == PLUS {
        start = 1;
    }
    let ghost t = if s.len() > 0 && s[0] == PLUS {
        s.drop_first()
    } else {
        s
    };
    proof {
        assert(t =~= s.skip(start as int));
    }
    if arg.len() == start {
        return Err(Problem::Usage);
    }
    let mut acc: u32 = 0;
    let mut i: usize = start;
    proof {
        assert(s.subrange(start as int, start as int) =~= Seq::<u8>::empty());
    }
    while i < arg.len()
        invariant
            s == arg@,
            start <= i <= s.len(),
            start <= 1,
            t == (if s.len() > 0 && s[0] == PLUS {
                s.drop_first()
            } else {
                s
            }),
            (start == 1) == (s.len() > 0 && s[0] == PLUS),
            acc as nat == digits_val(s.subrange(start as int, i as int)),
            acc <= 255,
            all_digits(s.subrange(start as int, i as int)),
        decreases s.len() - i,
    {
        let b = arg[i];
        if b < ZERO || b > NINE {
            proof {
                assert(t =~= s.skip(start as int));
                assert(t[i - start] == s[i as int]);
                assert(!all_digits(t));
            }
            return Err(Problem::Usage);
        }
        let d: u32 = (b - ZERO) as u32;
        proof {
            assert(s.subrange(start as int, i + 1).drop_last() =~= s.subrange(
                start as int,
                i as int,
            ));
            assert(s.subrange(start as int, i + 1).last() == s[i as int]);
        }
        let next = acc * 10 + d;
        if next > 255 {
            proof {
                assert(t =~= s.skip(start as int));
                assert(t.take(i + 1 - start) =~= s.subrange(start as int, i + 1));
                lemma_digits_val_prefix(t, i + 1 - start);
                assert(digits_val(t) > 255);
            }
            return Err(Problem::Usage);
        }
        acc = next;
        proof {
            assert forall|p: int| 0 <= p < i + 1 - start implies is_digit(
                #[trigger] s.subrange(start as int, i + 1)[p],
            ) by {
                if p < i - start {
                    assert(s.subrange(start as int, i as int)[p] == s.subrange(
                        start as int,
                        i + 1,
                    )[p]);
                }
            }
        }
        i += 1;
    }
    proof {
        assert(t =~= s.skip(start as int));
        assert(t =~= s.subrange(start as int, s.len() as int));
        assert(t.len() > 0);
    }
    Ok(acc as u8)
}

/// The preferences a request starts from before any option is processed:
/// six words of five to twelve characters, built on a random mnemonic.
pub fn default_prefs() -> (p: Prefs)
    ensures
        p.max_chars == 12,
        p.min_chars == 5,
        p.num_words == 6,
        p.phrase is DynamicMnemonic,
{
    Prefs { max_chars: 12, min_chars: 5, num_words: 6, phrase: Phrase::DynamicMnemonic }
}

/// A command line may not end while an option still waits for its value.
pub fn finish_args(arg_state: &ArgState) -> (r: Result<(), Problem>)
    ensures
        r is Ok <==> arg_state is BeginArg,
        r is Err ==> r->Err_0 == Problem::Usage,
{
    match arg_state {
        ArgState::BeginArg => Ok(()),
        _ => Err(Problem::Usage),
    }
}

fn arg_is_2(arg: &Vec<u8>, b0: u8, b1: u8) -> (r: bool)
    ensures
        r == (arg@ == seq![b0, b1]),
{
    let hit = arg.len() == 2 && arg[0] == b0 && arg[1] == b1;
    proof {
        if hit {
            assert(arg@ =~= seq![b0, b1]);
        } else {
            assert(arg@ != seq![b0, b1]);
        }
    }
    hit
}

fn arg_is_4(arg: &Vec<u8>, b0: u8, b1: u8, b2: u8, b3: u8) -> (r: bool)
    ensures
        r == (arg@ == seq![b0, b1, b2, b3]),
{
    let hit = arg.len() == 4 && arg[0] == b0 && arg[1] == b1 && arg[2] == b2 && arg[3] == b3;
    proof {
        if hit {
            assert(arg@ =~= seq![b0, b1, b2, b3]);
        } else {
            assert(arg@ != seq![b0, b1, b2, b3]);
        }
    }
    hit
}

fn arg_is_6(arg: &Vec<u8>, b0: u8, b1: u8, b2: u8, b3: u8, b4: u8, b5: u8) -> (r: bool)
    ensures
        r == (arg@ == seq![b0, b1, b2, b3, b4, b5]),
{
    let hit = arg.len() == 6 && arg[0] == b0 && arg[1] == b1 && arg[2] == b2 && arg[3] == b3
        && arg[4] == b4 && arg[5] == b5;
    proof {
        if hit {
            assert(arg@ =~= seq![b0, b1, b2, b3, b4, b5]);
        } else {
            assert(arg@ != seq![b0, b1, b2, b3, b4, b5]);
        }
    }
    hit
}

/// The two preference fields an option never touches, and the bounds an
/// option leaves alone, stayed as they were.
pub open spec fn same_bounds(a: Prefs, b: Prefs) -> bool {
    &&& a.max_chars == b.max_chars
    &&& a.min_chars == b.min_chars
    &&& a.num_words == b.num_words
}

/// Process one command-line token.  In `BeginArg` the token selects an
/// option; the value-expecting states read the token as that option's value.
/// `-w` only records the word-file path; the caller opens it.
pub fn process_arg(
    arg_state: &ArgState,
    arg: &Vec<u8>,
    prefs: &mut Prefs,
    word_path: &mut Option<Vec<u8>>,
) -> (r: Result<ArgOutcome, Problem>)
    ensures
        ({
            let a = arg@;
            match *arg_state {
                ArgState::BeginArg => {
                    if a == seq![DASH, LC_H] || a == seq![DASH, DASH, LC_H, LC_E, LC_L, LC_P] {
                        &&& r == Ok::<ArgOutcome, Problem>(ArgOutcome::Help)
                        &&& *final(prefs) == *old(prefs)
                        &&& *final(word_path) == *old(word_path)
                    } else if a == seq![DASH, LC_M, LC_A, LC_X] {
                        &&& r == Ok::<ArgOutcome, Problem>(ArgOutcome::Continue(ArgState::Max))
                        &&& *final(prefs) == *old(prefs)
                        &&& *final(word_path) == *old(word_path)
                    } else if a == seq![DASH, LC_M, LC_I, LC_N] {
                        &&& r == Ok::<ArgOutcome, Problem>(ArgOutcome::Continue(ArgState::Min))
                        &&& *final(prefs) == *old(prefs)
                        &&& *final(word_path) == *old(word_path)
                    } else if a == seq![DASH, LC_N] {
                        &&& r == Ok::<ArgOutcome, Problem>(ArgOutcome::Continue(ArgState::Num))
                        &&& *final(prefs) == *old(prefs)
                        &&& *final(word_path) == *old(word_path)
                    } else if a == seq![DASH, LC_R] {
                        &&& r == Ok::<ArgOutcome, Problem>(ArgOutcome::Continue(ArgState::BeginArg))
                        &&& final(prefs).phrase is Random
                        &&& same_bounds(*final(prefs), *old(prefs))
                        &&& *final(word_path) == *old(word_path)
                    } else if a == seq![DASH, LC_M] {
                        &&& r == Ok::<ArgOutcome, Problem>(ArgOutcome::Continue(ArgState::BeginArg))
                        &&& final(prefs).phrase is DynamicMnemonic
                        &&& same_bounds(*final(prefs), *old(prefs))
                        &&& *final(word_path) == *old(word_path)
                    } else if a == seq![DASH, UC_M] {
                        &&& r == Ok::<ArgOutcome, Problem>(ArgOutcome::Continue(ArgState::Mnemonic))
                        &&& *final(prefs) == *old(prefs)
                        &&& *final(word_path) == *old(word_path)
                    } else if a == seq![DASH, LC_W] {
                        &&& r == Ok::<ArgOutcome, Problem>(ArgOutcome::Continue(ArgState::Words))
                        &&& *final(prefs) == *old(prefs)
                        &&& *final(word_path) == *old(word_path)
                    } else {
                        &&& r == Err::<ArgOutcome, Problem>(Problem::Usage)
                        &&& *final(prefs) == *old(prefs)
                        &&& *final(word_path) == *old(word_path)
                    }
                },
                ArgState::Max => match parse_u8(a) {
                    Some(v) => {
                        &&& r == Ok::<ArgOutcome, Problem>(ArgOutcome::Continue(ArgState::BeginArg))
                        &&& final(prefs).max_chars == v
                        &&& final(prefs).min_chars == (if old(prefs).min_chars > v {
                            v
                        } else {
                            old(prefs).min_chars
                        })
                        &&& final(prefs).num_words == old(prefs).num_words
                        &&& final(prefs).phrase == old(prefs).phrase
                        &&& *final(word_path) == *old(word_path)
                    },
                    None => {
                        &&& r == Err::<ArgOutcome, Problem>(Problem::Usage)
                        &&& *final(prefs) == *old(prefs)
                        &&& *final(word_path) == *old(word_path)
                    },
                },
                ArgState::Min => match parse_u8(a) {
                    Some(v) => {
                        &&& r == Ok::<ArgOutcome, Problem>(ArgOutcome::Continue(ArgState::BeginArg))
                        &&& final(prefs).min_chars == v
                        &&& final(prefs).max_chars == (if old(prefs).max_chars < v {
                            v
                        } else {
                            old(prefs).max_chars
                        })
                        &&& final(prefs).num_words == old(prefs).num_words
                        &&& final(prefs).phrase == old(prefs).phrase
                        &&& *final(word_path) == *old(word_path)
                    },
                    None => {
                        &&& r == Err::<ArgOutcome, Problem>(Problem::Usage)
                        &&& *final(prefs) == *old(prefs)
                        &&& *final(word_path) == *old(word_path)
                    },
                },
                ArgState::Num => match parse_u8(a) {
                    Some(v) => {
                        &&& r == Ok::<ArgOutcome, Problem>(ArgOutcome::Continue(ArgState::BeginArg))
                        &&& final(prefs).num_words == v
                        &&& final(prefs).max_chars == old(prefs).max_chars
                        &&& final(prefs).min_chars == old(prefs).min_chars
                        &&& final(prefs).phrase == old(prefs).phrase
                        &&& *final(word_path) == *old(word_path)
                    },
                    None => {
                        &&& r == Err::<ArgOutcome, Problem>(Problem::Usage)
                        &&& *final(prefs) == *old(prefs)
                        &&& *final(word_path) == *old(word_path)
                    },
                },
                ArgState::Mnemonic => {
                    &&& r == Ok::<ArgOutcome, Problem>(ArgOutcome::Continue(ArgState::BeginArg))
                    &&& final(prefs).phrase is FixedMnemonic
                    &&& final(prefs).phrase->FixedMnemonic_0@ == a
                    &&& same_bounds(*final(prefs), *old(prefs))
                    &&& *final(word_path) == *old(word_path)
                },
                ArgState::Words => {
                    &&& r == Ok::<ArgOutcome, Problem>(ArgOutcome::Continue(ArgState::BeginArg))
                    &&& *final(prefs) == *old(prefs)
                    &&& (*final(word_path)) is Some
                    &&& (*final(word_path))->0@ == a
                },
            }
        }),
{
    match arg_state {
        ArgState::BeginArg => {
            if arg_is_2(arg, DASH, LC_H) || arg_is_6(arg, DASH, DASH, LC_H, LC_E, LC_L, LC_P) {
                Ok(ArgOutcome::Help)
            } else if arg_is_4(arg, DASH, LC_M, LC_A, LC_X) {
                Ok(ArgOutcome::Continue(ArgState::Max))
            } else if arg_is_4(arg, DASH, LC_M, LC_I, LC_N) {
                Ok(ArgOutcome::Continue(ArgState::Min))
            } else if arg_is_2(arg, DASH, LC_N) {
                Ok(ArgOutcome::Continue(ArgState::Num))
            } else if arg_is_2(arg, DASH, LC_R) {
                prefs.phrase = Phrase::Random;
                Ok(ArgOutcome::Continue(ArgState::BeginArg))
            } else if arg_is_2(arg, DASH, LC_M) {
                prefs.phrase = Phrase::DynamicMnemonic;
                Ok(ArgOutcome::Continue(ArgState::BeginArg))
            } else if arg_is_2(arg, DASH, UC_M) {
                Ok(ArgOutcome::Continue(ArgState::Mnemonic))
            } else if arg_is_2(arg, DASH, LC_W) {
                Ok(ArgOutcome::Continue(ArgState::Words))
            } else {
                Err(Problem::Usage)
            }
        },
        ArgState::Max => match process_int_arg(arg.as_slice()) {
            Ok(v) => {
                prefs.max_chars = v;
                if prefs.min_chars > v {
                    prefs.min_chars = v;
                }
                Ok(ArgOutcome::Continue(ArgState::BeginArg))
            },
            Err(p) => Err(p),
        },
        ArgState::Min => match process_int_arg(arg.as_slice()) {
            Ok(v) => {
                prefs.min_chars = v;
                if prefs.max_chars < v {
                    prefs.max_chars = v;
                }
                Ok(ArgOutcome::Continue(ArgState::BeginArg))
            },
            Err(p) => Err(p),
        },
        ArgState::Num => match process_int_arg(arg.as_slice()) {
            Ok(v) => {
                prefs.num_words = v;
                Ok(ArgOutcome::Continue(ArgState::BeginArg))
            },
            Err(p) => Err(p),
        },
        ArgState::Mnemonic => {
            prefs.phrase = Phrase::FixedMnemonic(copy_bytes(arg));
            Ok(ArgOutcome::Continue(ArgState::BeginArg))
        },
        ArgState::Words => {
            *word_path = Some(copy_bytes(arg));
            Ok(ArgOutcome::Continue(ArgState::BeginArg))
        },
    }
}

} // verus!
