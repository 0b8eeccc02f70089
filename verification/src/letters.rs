use vstd::prelude::*;

use crate::selector::views;

verus! {

/// Whether a byte continues a UTF-8 sequence rather than starting one.
pub open spec fn is_continuation(b: u8) -> bool {
    0x80 <= b < 0xC0
}

/// The number of continuation bytes at the front of `bs`.
pub open spec fn cont_run(bs: Seq<u8>) -> nat
    decreases bs.len(),
{
    if bs.len() == 0 || !is_continuation(bs[0]) {
        0
    } else {
        (1 + cont_run(bs.drop_first())) as nat
    }
}

pub proof fn lemma_cont_run_le(bs: Seq<u8>)
    ensures
        cont_run(bs) <= bs.len(),
    decreases bs.len(),
{
    if bs.len() > 0 && is_continuation(bs[0]) {
        lemma_cont_run_le(bs.drop_first());
    }
}

/// The leading continuation bytes are exactly those before the first byte
/// that does not continue a sequence.
proof fn lemma_cont_run_is(bs: Seq<u8>, m: int)
    requires
        0 <= m <= bs.len(),
        forall|p: int| 0 <= p < m ==> is_continuation(#[trigger] bs[p]),
        m < bs.len() ==> !is_continuation(bs[m]),
    ensures
        cont_run(bs) == m,
    decreases m,
{
    if m == 0 {
    } else {
        assert(is_continuation(bs[0]));
        assert forall|p: int| 0 <= p < m - 1 implies is_continuation(
            #[trigger] bs.drop_first()[p],
        ) by {
            assert(bs.drop_first()[p] == bs[p + 1]);
        }
        assert(m - 1 < bs.drop_first().len() ==> !is_continuation(bs.drop_first()[m - 1]));
        lemma_cont_run_is(bs.drop_first(), m - 1);
    }
}

/// How many bytes the first letter of a non-empty byte string spans: its
/// first byte together with the continuation bytes that follow it.
pub open spec fn letter_len(bs: Seq<u8>) -> nat
    recommends
        bs.len() > 0,
{
    (1 + cont_run(bs.drop_first())) as nat
}

/// The letters of a byte string: it is split before every byte that does not
/// continue a UTF-8 sequence.  For valid UTF-8 the pieces are exactly the
/// encoded characters, in order, so two letters are equal precisely when the
/// characters they encode are.
pub open spec fn letters_of(bs: Seq<u8>) -> Seq<Seq<u8>>
    decreases bs.len(),
    via letters_of_decreases
{
    if bs.len() == 0 {
        Seq::empty()
    } else {
        seq![bs.take(letter_len(bs) as int)] + letters_of(bs.skip(letter_len(bs) as int))
    }
}

#[via_fn]
proof fn letters_of_decreases(bs: Seq<u8>) {
    if bs.len() > 0 {
        lemma_cont_run_le(bs.drop_first());
    }
}

/// Split a byte string into its letters, as `letters_of` describes them.
pub fn split_letters(bytes: &Vec<u8>) -> (r: Vec<Vec<u8>>)
    ensures
        views(r@) == letters_of(bytes@),
{
    let ghost bs = bytes@;
    let mut r: Vec<Vec<u8>> = Vec::new();
    let mut i: usize = 0;
    proof {
        assert(views(r@) + letters_of(bs.skip(0)) =~= letters_of(bs.skip(0)));
        assert(bs.skip(0) =~= bs);
    }
    while i < bytes.len()
        invariant
            bs == bytes@,
            i <= bs.len(),
            views(r@) + letters_of(bs.skip(i as int)) == letters_of(bs),
        decreases bs.len() - i,
    {
        let mut j: usize = i + 1;
        while j < bytes.len() && bytes[j] >= 0x80 && bytes[j] < 0xC0
            invariant
                bs == bytes@,
                i < j <= bs.len(),
                forall|p: int| i < p < j ==> is_continuation(#[trigger] bs[p]),
            decreases bs.len() - j,
        {
            j += 1;
        }
        let mut letter: Vec<u8> = Vec::new();
        let mut t: usize = i;
        proof {
            assert(letter@ =~= bs.subrange(i as int, i as int));
        }
        while t < j
            invariant
                bs == bytes@,
                i <= t <= j <= bs.len(),
                letter@ == bs.subrange(i as int, t as int),
            decreases j - t,
        {
            letter.push(bytes[t]);
            proof {
                assert(bs.subrange(i as int, t + 1) =~= bs.subrange(i as int, t as int).push(
                    bs[t as int],
                ));
            }
            t += 1;
        }
        let ghost old_views = views(r@);
        r.push(letter);
        proof {
            let tail = bs.skip(i as int);
            assert forall|p: int| 0 <= p < j - i - 1 implies is_continuation(
                #[trigger] tail.drop_first()[p],
            ) by {
                assert(tail.drop_first()[p] == bs[i + 1 + p]);
            }
            assert(j - i - 1 < tail.drop_first().len() ==> !is_continuation(
                tail.drop_first()[j - i - 1],
            )) by {
                if j < bs.len() {
                    assert(tail.drop_first()[j - i - 1] == bs[j as int]);
                }
            }
            lemma_cont_run_is(tail.drop_first(), j - i - 1);
            assert(letter_len(tail) == j - i);
            assert(tail.take(j - i) =~= bs.subrange(i as int, j as int));
            assert(tail.skip(j - i) =~= bs.skip(j as int));
            assert(letters_of(tail) == seq![letter@] + letters_of(bs.skip(j as int)));
            assert(views(r@) =~= old_views.push(letter@));
            assert(views(r@) + letters_of(bs.skip(j as int)) =~= old_views + letters_of(tail));
        }
        i = j;
    }
    proof {
        assert(bs.skip(bs.len() as int) =~= Seq::<u8>::empty());
        assert(views(r@) + letters_of(bs.skip(bs.len() as int)) =~= views(r@));
    }
    r
}

} // verus!
