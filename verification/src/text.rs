//! Reading and writing the short texts of a parameter form.

use vstd::prelude::*;
use vstd::string::*;

verus! {

/// The characters with the Unicode property `White_Space`.
pub open spec fn white_space(c: char) -> bool {
    let code = c as int;
    ||| 0x09 <= code <= 0x0D
    ||| code == 0x20
    ||| code == 0x85
    ||| code == 0xA0
    ||| code == 0x1680
    ||| 0x2000 <= code <= 0x200A
    ||| code == 0x2028
    ||| code == 0x2029
    ||| code == 0x202F
    ||| code == 0x205F
    ||| code == 0x3000
}

/// What `str::to_uppercase` makes of a text.
pub uninterp spec fn upper_text(text: Seq<char>) -> Seq<char>;

/// Whether a character is white space.
fn is_white(c: char) -> (r: bool)
    ensures
        r == white_space(c),
{
    let code: u32 = c as u32;
    (0x09 <= code && code <= 0x0D) || code == 0x20 || code == 0x85 || code == 0xA0 || code
        == 0x1680 || (0x2000 <= code && code <= 0x200A) || code == 0x2028 || code == 0x2029
        || code == 0x202F || code == 0x205F || code == 0x3000
}

/// `str::to_uppercase`, whose result is named, not described.
#[verifier::external_body]
pub(crate) fn to_upper(text: &str) -> (r: String)
    ensures
        r@ == upper_text(text@),
{
    text.to_uppercase()
}

/// `String::push`: the character stands behind the ones before.
pub assume_specification[ String::push ](s: &mut String, ch: char)
    ensures
        final(s)@ == old(s)@.push(ch),
;

/// A text without the white space at its front.
pub open spec fn trimmed_front(text: Seq<char>) -> Seq<char>
    decreases text.len(),
{
    if text.len() > 0 && white_space(text[0]) {
        trimmed_front(text.drop_first())
    } else {
        text
    }
}

/// A text without the white space at its back.
pub open spec fn trimmed_back(text: Seq<char>) -> Seq<char>
    decreases text.len(),
{
    if text.len() > 0 && white_space(text.last()) {
        trimmed_back(text.drop_last())
    } else {
        text
    }
}

/// A text without the white space around it.
pub open spec fn trimmed_text(text: Seq<char>) -> Seq<char> {
    trimmed_back(trimmed_front(text))
}

/// A text without the white space around it.
pub(crate) fn trim(text: &str) -> (r: String)
    ensures
        r@ == trimmed_text(text@),
{
    let n = text.unicode_len();
    let ghost whole = text@;
    let mut start: usize = 0;
    assert(whole.skip(0) =~= whole);
    while start < n && is_white(text.get_char(start))
        invariant
            start <= n,
            n == whole.len(),
            whole == text@,
            trimmed_front(whole) == trimmed_front(whole.skip(start as int)),
        decreases n - start,
    {
        assert(whole.skip(start as int).drop_first() =~= whole.skip(start + 1));
        start = start + 1;
    }
    let ghost rest = whole.skip(start as int);
    assert(trimmed_front(whole) == rest);
    let mut end: usize = n;
    assert(whole.subrange(start as int, n as int) =~= rest);
    while start < end && is_white(text.get_char(end - 1))
        invariant
            start <= end <= n,
            n == whole.len(),
            whole == text@,
            trimmed_back(rest) == trimmed_back(whole.subrange(start as int, end as int)),
        decreases end,
    {
        assert(whole.subrange(start as int, end as int).drop_last() =~= whole.subrange(
            start as int,
            end - 1,
        ));
        end = end - 1;
    }
    text.substring_char(start, end).to_owned()
}

/// A text without its last character; an empty text stays as it is.
pub fn without_last(text: &str) -> (r: String)
    ensures
        r@ == if text@.len() == 0 {
            text@
        } else {
            text@.drop_last()
        },
{
    let n = text.unicode_len();
    if n == 0 {
        return text.to_owned();
    }
    let r = text.substring_char(0, n - 1).to_owned();
    assert(r@ =~= text@.drop_last());
    r
}

/// Whether two texts hold the same characters.
pub fn same_text(a: &str, b: &str) -> (r: bool)
    ensures
        r == (a@ == b@),
{
    let n = a.unicode_len();
    if n != b.unicode_len() {
        return false;
    }
    let mut i: usize = 0;
    while i < n
        invariant
            i <= n,
            n == a@.len(),
            n == b@.len(),
            forall|j: int| 0 <= j < i ==> a@[j] == b@[j],
        decreases n - i,
    {
        if a.get_char(i) != b.get_char(i) {
            assert(a@[i as int] != b@[i as int]);
            return false;
        }
        i = i + 1;
    }
    assert(a@ =~= b@);
    true
}

/// `part` stands in `whole` from position `i` on.
pub open spec fn stands_at(whole: Seq<char>, part: Seq<char>, i: int) -> bool {
    0 <= i && i + part.len() <= whole.len() && whole.subrange(i, i + part.len()) == part
}

/// Whether `part` occurs in `whole`.
pub open spec fn occurs_in(whole: Seq<char>, part: Seq<char>) -> bool {
    exists|i: int| #[trigger] stands_at(whole, part, i)
}

/// Whether `part` occurs in `whole`.
pub fn contains_text(whole: &str, part: &str) -> (r: bool)
    ensures
        r == occurs_in(whole@, part@),
{
    let n = whole.unicode_len();
    let k = part.unicode_len();
    if k > n {
        assert(!occurs_in(whole@, part@));
        return false;
    }
    let mut i: usize = 0;
    while i <= n - k
        invariant
            n == whole@.len(),
            k == part@.len(),
            k <= n,
            i <= n - k + 1,
            forall|j: int| 0 <= j < i ==> !stands_at(whole@, part@, j),
        decreases n - i + 1,
    {
        if same_text(whole.substring_char(i, i + k), part) {
            assert(stands_at(whole@, part@, i as int));
            return true;
        }
        assert(!stands_at(whole@, part@, i as int));
        if i == n - k {
            assert forall|j: int| !stands_at(whole@, part@, j) by {}
            return false;
        }
        i = i + 1;
    }
    false
}

/// The decimal digit of a number below ten.
pub open spec fn digit_char(d: nat) -> char {
    (48 + d) as char
}

/// Decimal digits of a number, most significant first.
pub open spec fn digits_text(n: nat) -> Seq<char>
    decreases n,
{
    if n < 10 {
        seq![digit_char(n)]
    } else {
        digits_text(n / 10).push(digit_char(n % 10))
    }
}

/// Decimal text of an integer.
pub open spec fn integer_text(i: int) -> Seq<char> {
    if i < 0 {
        seq!['-'] + digits_text((-i) as nat)
    } else {
        digits_text(i as nat)
    }
}

fn digit_literal(d: u64) -> (r: &'static str)
    requires
        d < 10,
    ensures
        r@ == seq![digit_char(d as nat)],
{
    proof {
        reveal_strlit("0");
        reveal_strlit("1");
        reveal_strlit("2");
        reveal_strlit("3");
        reveal_strlit("4");
        reveal_strlit("5");
        reveal_strlit("6");
        reveal_strlit("7");
        reveal_strlit("8");
        reveal_strlit("9");
    }
    let r = match d {
        0 => "0",
        1 => "1",
        2 => "2",
        3 => "3",
        4 => "4",
        5 => "5",
        6 => "6",
        7 => "7",
        8 => "8",
        _ => "9",
    };
    assert(r@ =~= seq![digit_char(d as nat)]);
    r
}

/// Decimal text of a natural number.
pub fn text_of_u64(n: u64) -> (r: String)
    ensures
        r@ == integer_text(n as int),
    decreases n,
{
    if n < 10 {
        digit_literal(n).to_owned()
    } else {
        let mut r = text_of_u64(n / 10);
        r.append(digit_literal(n % 10));
        assert(r@ =~= integer_text(n as int));
        r
    }
}

pub fn text_of_usize(n: usize) -> (r: String)
    ensures
        r@ == integer_text(n as int),
{
    text_of_u64(n as u64)
}

/// Decimal text of an integer.
pub fn text_of_i64(i: i64) -> (r: String)
    ensures
        r@ == integer_text(i as int),
{
    if i < 0 {
        let magnitude: u64 = (-(i as i128)) as u64;
        let mut r = "-".to_owned();
        proof {
            reveal_strlit("-");
        }
        r.append(text_of_u64(magnitude).as_str());
        assert(r@ =~= integer_text(i as int));
        r
    } else {
        text_of_u64(i as u64)
    }
}

pub open spec fn is_digit(c: char) -> bool {
    '0' <= c && c <= '9'
}

pub open spec fn all_digits(s: Seq<char>) -> bool {
    s.len() > 0 && forall|i: int| 0 <= i < s.len() ==> is_digit(#[trigger] s[i])
}

/// The number that a row of decimal digits writes.
pub open spec fn digits_value(s: Seq<char>) -> nat
    decreases s.len(),
{
    if s.len() == 0 {
        0
    } else {
        digits_value(s.drop_last()) * 10 + ((s.last() as int) - 48) as nat
    }
}

/// The text without a leading plus sign.
pub open spec fn without_plus(s: Seq<char>) -> Seq<char> {
    if s.len() > 0 && s[0] == '+' {
        s.skip(1)
    } else {
        s
    }
}

/// The number at most `limit` that a text writes: digits, with an optional plus sign.
pub open spec fn natural_of_text(s: Seq<char>, limit: nat) -> Option<nat> {
    let d = without_plus(s);
    if all_digits(d) && digits_value(d) <= limit {
        Some(digits_value(d))
    } else {
        None
    }
}

/// A longer row of digits writes a number that is not smaller.
proof fn lemma_digits_value_grows(s: Seq<char>, i: int)
    requires
        0 <= i <= s.len(),
        forall|j: int| 0 <= j < s.len() ==> is_digit(#[trigger] s[j]),
    ensures
        digits_value(s.take(i)) <= digits_value(s),
    decreases s.len() - i,
{
    if i == s.len() {
        assert(s.take(i) =~= s);
    } else {
        let next = s.take(i + 1);
        assert(next.drop_last() =~= s.take(i));
        lemma_digits_value_grows(s, i + 1);
    }
}

/// Reads a row of digits as a number at most `limit`.
fn read_digits(text: &str, from: usize, limit: u64) -> (r: Option<u64>)
    requires
        from <= text@.len(),
    ensures
        ({
            let d = text@.skip(from as int);
            &&& r is Some <==> all_digits(d) && digits_value(d) <= limit
            &&& r matches Some(v) ==> v == digits_value(d)
        }),
{
    let n = text.unicode_len();
    let ghost d = text@.skip(from as int);
    if from == n {
        return None;
    }
    let mut value: u64 = 0;
    let mut i: usize = from;
    while i < n
        invariant
            from <= i <= n,
            n == text@.len(),
            d == text@.skip(from as int),
            forall|j: int| 0 <= j < i - from ==> is_digit(#[trigger] d[j]),
            value == digits_value(d.take(i - from)),
            value <= limit,
        decreases n - i,
    {
        let c = text.get_char(i);
        assert(c == d[i - from]);
        if c < '0' || c > '9' {
            return None;
        }
        let digit: u64 = (c as u32 - 48) as u64;
        let ghost next = d.take(i - from + 1);
        proof {
            assert(next.drop_last() =~= d.take(i - from));
        }
        let wide: u128 = value as u128 * 10 + digit as u128;
        if wide > limit as u128 {
            proof {
                if all_digits(d) {
                    lemma_digits_value_grows(d, i - from + 1);
                }
            }
            return None;
        }
        value = wide as u64;
        i = i + 1;
    }
    assert(d.take(n - from) =~= d);
    Some(value)
}

/// Reads a natural number at most `limit`.
pub fn read_natural(text: &str, limit: u64) -> (r: Option<u64>)
    ensures
        r is Some <==> natural_of_text(text@, limit as nat) is Some,
        r matches Some(v) ==> natural_of_text(text@, limit as nat) == Some(v as nat),
{
    let n = text.unicode_len();
    let from: usize = if n > 0 && text.get_char(0) == '+' {
        1
    } else {
        0
    };
    assert(from == 0 ==> text@.skip(0) =~= text@);
    read_digits(text, from, limit)
}

pub fn read_u64(text: &str) -> (r: Option<u64>)
    ensures
        r is Some <==> natural_of_text(text@, u64::MAX as nat) is Some,
        r matches Some(v) ==> natural_of_text(text@, u64::MAX as nat) == Some(v as nat),
{
    read_natural(text, u64::MAX)
}

pub fn read_usize(text: &str) -> (r: Option<usize>)
    ensures
        r is Some <==> natural_of_text(text@, usize::MAX as nat) is Some,
        r matches Some(v) ==> natural_of_text(text@, usize::MAX as nat) == Some(v as nat),
{
    match read_natural(text, usize::MAX as u64) {
        Some(v) => Some(v as usize),
        None => None,
    }
}

/// The 32-bit integer that a text writes: digits, with an optional sign.
pub open spec fn i32_of_text(s: Seq<char>) -> Option<int> {
    if s.len() > 0 && s[0] == '-' {
        let d = s.skip(1);
        if all_digits(d) && digits_value(d) <= 0x8000_0000 {
            Some(-(digits_value(d) as int))
        } else {
            None
        }
    } else {
        match natural_of_text(s, i32::MAX as nat) {
            Some(v) => Some(v as int),
            None => None,
        }
    }
}

pub fn read_i32(text: &str) -> (r: Option<i32>)
    ensures
        r is Some <==> i32_of_text(text@) is Some,
        r matches Some(v) ==> i32_of_text(text@) == Some(v as int),
{
    let n = text.unicode_len();
    if n > 0 && text.get_char(0) == '-' {
        match read_digits(text, 1, 0x8000_0000) {
            Some(v) => Some((-(v as i64)) as i32),
            None => None,
        }
    } else {
        match read_natural(text, i32::MAX as u64) {
            Some(v) => Some(v as i32),
            None => None,
        }
    }
}

/// The truth value that a text names.
pub open spec fn bool_of_text(s: Seq<char>) -> Option<bool> {
    if s == "true"@ {
        Some(true)
    } else if s == "false"@ {
        Some(false)
    } else {
        None
    }
}

pub fn read_bool(text: &str) -> (r: Option<bool>)
    ensures
        r == bool_of_text(text@),
{
    if same_text(text, "true") {
        Some(true)
    } else if same_text(text, "false") {
        Some(false)
    } else {
        None
    }
}

/// The pieces between the commas of a text.
pub open spec fn comma_pieces(s: Seq<char>) -> Seq<Seq<char>>
    decreases s.len(),
{
    if s.len() == 0 {
        seq![Seq::<char>::empty()]
    } else {
        let before = comma_pieces(s.drop_last());
        if s.last() == ',' {
            before.push(Seq::<char>::empty())
        } else {
            before.drop_last().push(before.last().push(s.last()))
        }
    }
}

/// Where the piece that ends at the end of `s` begins.
pub open spec fn last_piece_start(s: Seq<char>) -> int
    decreases s.len(),
{
    if s.len() == 0 || s.last() == ',' {
        s.len() as int
    } else {
        last_piece_start(s.drop_last())
    }
}

proof fn lemma_last_piece(s: Seq<char>)
    ensures
        0 <= last_piece_start(s) <= s.len(),
        comma_pieces(s).len() > 0,
        comma_pieces(s).last() == s.skip(last_piece_start(s)),
    decreases s.len(),
{
    if s.len() == 0 {
        assert(s.skip(0) =~= Seq::<char>::empty());
    } else {
        lemma_last_piece(s.drop_last());
        if s.last() == ',' {
            assert(s.skip(s.len() as int) =~= Seq::<char>::empty());
        } else {
            let start = last_piece_start(s.drop_last());
            assert(s.skip(start) =~= s.drop_last().skip(start).push(s.last()));
        }
    }
}

/// Splits a text at its commas.
pub fn split_commas(text: &str) -> (r: Vec<String>)
    ensures
        r@.len() == comma_pieces(text@).len(),
        forall|i: int| 0 <= i < r@.len() ==> (#[trigger] r@[i])@ == comma_pieces(text@)[i],
{
    let n = text.unicode_len();
    let mut r: Vec<String> = Vec::new();
    let mut start: usize = 0;
    let mut i: usize = 0;
    while i < n
        invariant
            i <= n,
            n == text@.len(),
            start == last_piece_start(text@.take(i as int)),
            start <= i,
            r@.len() + 1 == comma_pieces(text@.take(i as int)).len(),
            forall|j: int|
                0 <= j < r@.len() ==> (#[trigger] r@[j])@ == comma_pieces(
                    text@.take(i as int),
                )[j],
        decreases n - i,
    {
        let ghost next = text@.take(i as int + 1);
        proof {
            assert(next.drop_last() =~= text@.take(i as int));
            lemma_last_piece(text@.take(i as int));
            lemma_last_piece(next);
        }
        if text.get_char(i) == ',' {
            let piece = text.substring_char(start, i).to_owned();
            assert(piece@ =~= text@.take(i as int).skip(start as int));
            r.push(piece);
            start = i + 1;
        }
        i = i + 1;
    }
    proof {
        assert(text@.take(n as int) =~= text@);
        lemma_last_piece(text@);
    }
    let piece = text.substring_char(start, n).to_owned();
    assert(piece@ =~= text@.skip(start as int));
    r.push(piece);
    r
}

} // verus!
