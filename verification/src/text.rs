//! Decimal text and substring search.

use vstd::prelude::*;
use vstd::string::*;

verus! {

/// The character of one decimal digit.
pub open spec fn digit_char(d: nat) -> char {
    (48 + d) as char
}

/// `n` in decimal, without leading zeros.
pub open spec fn decimal_text(n: nat) -> Seq<char>
    decreases n,
{
    if n < 10 {
        seq![digit_char(n)]
    } else {
        decimal_text(n / 10).push(digit_char(n % 10))
    }
}

/// `text` with zeros put in front until it has `width` characters.
pub open spec fn zero_padded(text: Seq<char>, width: nat) -> Seq<char> {
    if text.len() < width {
        Seq::new((width - text.len()) as nat, |i: int| '0') + text
    } else {
        text
    }
}

/// Whether `needle` occurs in `hay` as a run of consecutive characters.
pub open spec fn occurs(hay: Seq<char>, needle: Seq<char>) -> bool {
    exists|i: int|
        0 <= i <= hay.len() - needle.len() && #[trigger] hay.subrange(i, i + needle.len())
            == needle
}

fn digit(d: usize) -> (s: &'static str)
    requires
        d < 10,
    ensures
        s@ == seq![digit_char(d as nat)],
{
    proof {
        reveal_strlit("0");
        reveal_strlit("1");
        reveal_strlit("2");
        reveal_strlit("3");
        reveal_strlit("4");
        reveal_strlit("5");
        reveal_strlit("6");
        reveal_strlit("7");
        reveal_strlit("8");
        reveal_strlit("9");
    }
    match d {
        0 => "0",
        1 => "1",
        2 => "2",
        3 => "3",
        4 => "4",
        5 => "5",
        6 => "6",
        7 => "7",
        8 => "8",
        _ => "9",
    }
}

/// `n` in decimal.
pub fn decimal(n: usize) -> (s: String)
    ensures
        s@ == decimal_text(n as nat),
    decreases n,
{
    let mut s = if n < 10 {
        String::new()
    } else {
        decimal(n / 10)
    };
    s.append(digit(n % 10));
    s
}

/// `n` in decimal, zero-padded to at least `width` characters.
pub fn padded_decimal(n: usize, width: usize) -> (s: String)
    ensures
        s@ == zero_padded(decimal_text(n as nat), width as nat),
{
    let body = decimal(n);
    let len = body.as_str().unicode_len();
    let mut s = String::new();
    let mut have: usize = len;
    while have < width
        invariant
            len <= have,
            have <= width || have == len,
            s@ == Seq::new((have - len) as nat, |i: int| '0'),
        decreases width - have,
    {
        proof {
            reveal_strlit("0");
        }
        s.append("0");
        have = have + 1;
        assert(s@ =~= Seq::new((have - len) as nat, |i: int| '0'));
    }
    s.append(body.as_str());
    assert(s@ =~= zero_padded(decimal_text(n as nat), width as nat));
    s
}

/// Whether `needle` stands in `hay` from character `at` on.
fn stands_at(hay: &str, at: usize, needle: &str) -> (same: bool)
    requires
        at + needle@.len() <= hay@.len(),
        hay@.len() <= usize::MAX,
    ensures
        same == (hay@.subrange(at as int, at + needle@.len()) == needle@),
{
    let m: usize = needle.unicode_len();
    let mut k: usize = 0;
    while k < m
        invariant
            m == needle@.len(),
            k <= m,
            at + m <= hay@.len() <= usize::MAX,
            forall|j: int| 0 <= j < k ==> hay@[at + j] == needle@[j],
        decreases m - k,
    {
        if hay.get_char(at + k) != needle.get_char(k) {
            assert(hay@.subrange(at as int, at + needle@.len())[k as int] != needle@[k as int]);
            return false;
        }
        k = k + 1;
    }
    assert(hay@.subrange(at as int, at + needle@.len()) =~= needle@);
    true
}

/// Whether `needle` occurs in `hay`.
pub fn contains(hay: &str, needle: &str) -> (found: bool)
    ensures
        found == occurs(hay@, needle@),
        found <==> exists|i: int|
            0 <= i && i + needle@.len() <= hay@.len() && #[trigger] hay@.subrange(
                i,
                i + needle@.len(),
            ) == needle@,
{
    let n: usize = hay.unicode_len();
    let m: usize = needle.unicode_len();
    let mut at: usize = 0;
    while m <= n - at
        invariant
            n == hay@.len(),
            m == needle@.len(),
            at <= n,
            forall|i: int|
                0 <= i < at && i + m <= n ==> #[trigger] hay@.subrange(i, i + needle@.len())
                    != needle@,
        decreases n - at,
    {
        if stands_at(hay, at, needle) {
            return true;
        }
        if at == n {
            return false;
        }
        at = at + 1;
    }
    false
}

// ── what the text of a number says ───────────────────────────────────────────

/// Decimal text grows a digit at a time: below ten it is one digit, and ten times
/// a number and one more digit is the number's text and that digit.
pub proof fn decimal_text_grows_by_a_digit(n: nat, d: nat)
    requires
        d < 10,
    ensures
        decimal_text(d) == seq![(48 + d) as char],
        n > 0 ==> decimal_text(10 * n + d) == decimal_text(n).push((48 + d) as char),
{
    if n > 0 {
        assert((10 * n + d) / 10 == n && (10 * n + d) % 10 == d);
    }
}

/// Decimal text is digits, and it begins with a zero only where the number is
/// zero.
pub proof fn decimal_text_has_no_leading_zero(n: nat, i: int)
    ensures
        decimal_text(n).len() >= 1,
        0 <= i < decimal_text(n).len() ==> '0' <= decimal_text(n)[i] <= '9',
        n > 0 ==> decimal_text(n)[0] != '0',
    decreases n,
{
    if n >= 10 {
        decimal_text_has_no_leading_zero(n / 10, i);
        decimal_text_has_no_leading_zero(n / 10, 0);
    }
}

/// Padding puts zeros in front, as many as the width lacks, and keeps the text
/// behind them.
pub proof fn padding_puts_zeros_in_front(text: Seq<char>, width: nat, i: int)
    ensures
        ({
            let padded = zero_padded(text, width);
            let zeros = if text.len() < width { width - text.len() } else { 0 };
            &&& padded.len() == zeros + text.len()
            &&& 0 <= i < zeros ==> padded[i] == '0'
            &&& 0 <= i < text.len() ==> padded[zeros + i] == text[i]
        }),
{
}

/// A needle is found whatever stands around it.
pub proof fn a_needle_is_found_wherever_it_stands(
    front: Seq<char>,
    needle: Seq<char>,
    back: Seq<char>,
)
    ensures
        occurs(front + needle + back, needle),
{
    let hay = front + needle + back;
    let at = front.len() as int;
    assert(hay.subrange(at, at + needle.len()) =~= needle);
}

/// Where a needle is found, the hay is the needle with something around it.
pub proof fn a_found_needle_stands_there(hay: Seq<char>, needle: Seq<char>) -> (around: (
    Seq<char>,
    Seq<char>,
))
    requires
        occurs(hay, needle),
    ensures
        hay == around.0 + needle + around.1,
{
    let i = choose|i: int|
        0 <= i <= hay.len() - needle.len() && #[trigger] hay.subrange(i, i + needle.len())
            == needle;
    let (front, back) = (hay.take(i), hay.skip(i + needle.len()));
    assert(hay =~= front + needle + back);
    (front, back)
}

} // verus!
