//! What texts of numbers and lists mean.

use crate::text;
use vstd::prelude::*;

verus! {

/// Law: the text of a whole number reads back as that number, as far as the limit admits
/// it, and so does that of a 32-bit integer.
pub proof fn law_numbers_survive_their_text(n: nat, limit: nat)
    ensures
        n <= limit ==> text::natural_of_text(text::integer_text(n as int), limit) == Some(n),
        n > limit ==> text::natural_of_text(text::integer_text(n as int), limit) is None,
        n <= 0x7fff_ffff ==> text::i32_of_text(text::integer_text(n as int)) == Some(n as int),
        0 < n <= 0x8000_0000 ==> text::i32_of_text(text::integer_text(-(n as int))) == Some(
            -(n as int),
        ),
{
    lemma_digits(n);
    let s = text::digits_text(n);
    assert(text::is_digit(s[0]));
    let signed = seq!['-'] + s;
    assert(signed.skip(1) =~= s);
}

proof fn lemma_digits(n: nat)
    ensures
        text::digits_text(n).len() > 0,
        text::all_digits(text::digits_text(n)),
        text::digits_value(text::digits_text(n)) == n,
    decreases n,
{
    let s = text::digits_text(n);
    let d = n % 10;
    let c = text::digit_char(d);
    assert(c as int == 48 + d && text::is_digit(c));
    if n < 10 {
        assert(s.drop_last() =~= Seq::<char>::empty());
        assert(text::digits_value(Seq::<char>::empty()) == 0);
    } else {
        lemma_digits(n / 10);
        let before = text::digits_text(n / 10);
        assert(s.drop_last() =~= before);
        assert forall|i: int| 0 <= i < s.len() implies text::is_digit(#[trigger] s[i]) by {
            if i < before.len() {
                assert(s[i] == before[i]);
            }
        }
    }
}

/// `part` is `whole` from `i` up to `j`, and all that is left of `whole` is white space.
pub open spec fn cut_from(part: Seq<char>, whole: Seq<char>, i: int, j: int) -> bool {
    &&& 0 <= i <= j <= whole.len()
    &&& part == whole.subrange(i, j)
    &&& forall|k: int|
        0 <= k < i || j <= k < whole.len() ==> text::white_space(#[trigger] whole[k])
}

/// Law: trimming a text takes the white space around it away, all of it and nothing else.
pub proof fn law_trimming_takes_the_white_space(s: Seq<char>)
    ensures
        ({
            let t = text::trimmed_text(s);
            &&& exists|i: int, j: int| #[trigger] cut_from(t, s, i, j)
            &&& t.len() > 0 ==> !text::white_space(t[0]) && !text::white_space(t.last())
            &&& text::trimmed_text(t) == t
        }),
{
    let front = text::trimmed_front(s);
    let i = lemma_front(s);
    let j = lemma_back(front);
    let t = text::trimmed_text(s);
    assert(t =~= s.subrange(i, i + j));
    assert forall|k: int| 0 <= k < i || i + j <= k < s.len() implies text::white_space(
        #[trigger] s[k],
    ) by {
        if k >= i + j {
            assert(front[k - i] == s[k]);
        }
    }
    assert(cut_from(t, s, i, i + j));
    if t.len() > 0 {
        assert(t[0] == front[0]);
    }
}

proof fn lemma_front(s: Seq<char>) -> (i: int)
    ensures
        0 <= i <= s.len(),
        text::trimmed_front(s) == s.skip(i),
        forall|k: int| 0 <= k < i ==> text::white_space(#[trigger] s[k]),
        i < s.len() ==> !text::white_space(s[i]),
    decreases s.len(),
{
    if s.len() > 0 && text::white_space(s[0]) {
        let rest = s.drop_first();
        let i = lemma_front(rest);
        assert(rest.skip(i) =~= s.skip(i + 1));
        assert forall|k: int| 0 <= k < i + 1 implies text::white_space(#[trigger] s[k]) by {
            if k > 0 {
                assert(rest[k - 1] == s[k]);
            }
        }
        if i < rest.len() {
            assert(rest[i] == s[i + 1]);
        }
        i + 1
    } else {
        assert(s.skip(0) =~= s);
        0
    }
}

proof fn lemma_back(s: Seq<char>) -> (j: int)
    ensures
        0 <= j <= s.len(),
        text::trimmed_back(s) == s.take(j),
        forall|k: int| j <= k < s.len() ==> text::white_space(#[trigger] s[k]),
        j > 0 ==> !text::white_space(s[j - 1]),
    decreases s.len(),
{
    if s.len() > 0 && text::white_space(s.last()) {
        let rest = s.drop_last();
        let j = lemma_back(rest);
        assert(rest.take(j) =~= s.take(j));
        assert forall|k: int| j <= k < s.len() implies text::white_space(#[trigger] s[k]) by {
            if k < rest.len() {
                assert(rest[k] == s[k]);
            }
        }
        j
    } else {
        assert(s.take(s.len() as int) =~= s);
        s.len() as int
    }
}

/// The pieces with a comma between neighbours.
pub open spec fn joined(pieces: Seq<Seq<char>>) -> Seq<char>
    decreases pieces.len(),
{
    if pieces.len() == 0 {
        Seq::empty()
    } else if pieces.len() == 1 {
        pieces[0]
    } else {
        joined(pieces.drop_last()).push(',') + pieces.last()
    }
}

/// Law: the pieces of a list hold no commas, and joined by commas they are the list.
pub proof fn law_pieces_make_the_list(s: Seq<char>)
    ensures
        ({
            let pieces = text::comma_pieces(s);
            &&& pieces.len() > 0
            &&& joined(pieces) == s
            &&& forall|i: int|
                0 <= i < pieces.len() ==> !(#[trigger] pieces[i]).contains(',')
        }),
    decreases s.len(),
{
    let pieces = text::comma_pieces(s);
    if s.len() == 0 {
        assert(pieces.len() == 1);
        assert(joined(pieces) =~= s);
    } else {
        let shorter = s.drop_last();
        law_pieces_make_the_list(shorter);
        let before = text::comma_pieces(shorter);
        if s.last() == ',' {
            assert(pieces.drop_last() =~= before);
            assert(joined(pieces) =~= s);
        } else {
            assert(pieces.drop_last() =~= before.drop_last());
            assert(joined(pieces) =~= joined(before).push(s.last()));
            assert(joined(pieces) =~= s);
            let grown = before.last().push(s.last());
            assert(!grown.contains(',')) by {
                if grown.contains(',') {
                    let k = choose|k: int| 0 <= k < grown.len() && grown[k] == ',';
                    assert(before.last()[k] == ',');
                    assert(before.last().contains(','));
                }
            }
        }
    }
}

} // verus!
