//! Text built and read character by character: decimal numbers and searches.

use vstd::prelude::*;

verus! {

/// The decimal digit of value `d`.
pub open spec fn digit(d: int) -> char {
    (('0' as int) + d) as char
}

/// `n` in decimal, without leading zeros.
pub open spec fn decimal(n: nat) -> Seq<char>
    decreases n,
{
    if n < 10 {
        seq![digit(n as int)]
    } else {
        decimal(n / 10).push(digit((n % 10) as int))
    }
}

/// `n` in decimal, with a minus sign if it is negative.
pub open spec fn signed_decimal(n: int) -> Seq<char> {
    if n < 0 {
        seq!['-'] + decimal((-n) as nat)
    } else {
        decimal(n as nat)
    }
}

fn digit_str(d: u64) -> (s: &'static str)
    requires
        d < 10,
    ensures
        s@ == seq![digit(d as int)],
{
    proof {
        reveal_strlit("0");
        reveal_strlit("1");
        reveal_strlit("2");
        reveal_strlit("3");
        reveal_strlit("4");
        reveal_strlit("5");
        reveal_strlit("6");
        reveal_strlit("7");
        reveal_strlit("8");
        reveal_strlit("9");
    }
    if d == 0 {
        "0"
    } else if d == 1 {
        "1"
    } else if d == 2 {
        "2"
    } else if d == 3 {
        "3"
    } else if d == 4 {
        "4"
    } else if d == 5 {
        "5"
    } else if d == 6 {
        "6"
    } else if d == 7 {
        "7"
    } else if d == 8 {
        "8"
    } else {
        "9"
    }
}

/// Appends `n` in decimal.
pub fn push_decimal(out: &mut String, n: u64)
    ensures
        final(out)@ == old(out)@ + decimal(n as nat),
    decreases n,
{
    if n >= 10 {
        push_decimal(out, n / 10);
    }
    out.append(digit_str(n % 10));
}

/// Appends `n` in decimal, with a minus sign if it is negative.
pub fn push_signed_decimal(out: &mut String, n: i64)
    ensures
        final(out)@ == old(out)@ + signed_decimal(n as int),
{
    if n < 0 {
        out.append("-");
        let magnitude: u64 = if n == i64::MIN {
            0x8000_0000_0000_0000
        } else {
            (-n) as u64
        };
        push_decimal(out, magnitude);
        proof {
            reveal_strlit("-");
        }
    } else {
        push_decimal(out, n as u64);
    }
}

/// Whether two texts are equal.
pub fn same(a: &str, b: &str) -> (r: bool)
    ensures
        r == (a@ == b@),
{
    a.to_owned() == b.to_owned()
}

/// The characters of `s`.
pub fn chars_of(s: &str) -> (chars: Vec<char>)
    ensures
        chars@ == s@,
{
    let mut chars: Vec<char> = Vec::new();
    for c in it: s.chars()
        invariant
            it.seq() == s@,
            chars@ == s@.take(it.index()),
    {
        chars.push(c);
        assert(chars@ =~= s@.take(it.index() + 1));
    }
    assert(chars@ =~= s@);
    chars
}

/// Whether `c` is a decimal digit.
pub open spec fn is_digit(c: char) -> bool {
    '0' <= c <= '9'
}

/// The number that the decimal digits `s` stand for.
pub open spec fn number(s: Seq<char>) -> nat
    decreases s.len(),
{
    if s.len() == 0 {
        0
    } else {
        number(s.drop_last()) * 10 + ((s.last() as int) - ('0' as int)) as nat
    }
}

/// `s` without a leading sign; a minus sign counts as one only if `signed`.
pub open spec fn unsigned_part(s: Seq<char>, signed: bool) -> Seq<char> {
    if s.len() > 0 && (s[0] == '+' || (signed && s[0] == '-')) {
        s.skip(1)
    } else {
        s
    }
}

/// The integer from `min` up to `max` that `s` spells in decimal: an optional
/// sign and at least one digit, and nothing else. A minus sign is taken only
/// where `min` is negative.
pub open spec fn spelled_int(s: Seq<char>, min: int, max: int) -> Option<int> {
    let digits = unsigned_part(s, min < 0);
    if digits.len() == 0 || exists|i: int| 0 <= i < digits.len() && !is_digit(#[trigger] digits[i]) {
        None
    } else {
        let value = if s[0] == '-' {
            -(number(digits) as int)
        } else {
            number(digits) as int
        };
        if min <= value <= max {
            Some(value)
        } else {
            None
        }
    }
}

/// Reads the integer from `min` up to `max` that `s` spells.
pub fn parse_int(s: &str, min: i128, max: i128) -> (r: Option<i128>)
    requires
        -0x1_0000_0000_0000_0000 <= min <= 0,
        0 <= max <= 0x1_0000_0000_0000_0000,
    ensures
        r is Some == spelled_int(s@, min as int, max as int) is Some,
        r matches Some(n) ==> spelled_int(s@, min as int, max as int) == Some(n as int),
{
    let chars = chars_of(s);
    let mut start: usize = 0;
    let mut negative: bool = false;
    if chars.len() > 0 {
        if chars[0] == '+' {
            start = 1;
        } else if min < 0 && chars[0] == '-' {
            start = 1;
            negative = true;
        }
    }
    let ghost digits = unsigned_part(s@, min < 0);
    assert(digits =~= s@.skip(start as int));
    if start == chars.len() {
        return None;
    }
    let mut value: i128 = 0;
    let mut huge: bool = false;
    let mut i: usize = start;
    while i < chars.len()
        invariant
            start <= i <= chars.len(),
            digits == chars@.skip(start as int),
            digits.len() == chars.len() - start,
            digits == unsigned_part(s@, min < 0),
            forall|k: int| 0 <= k < i - start ==> is_digit(#[trigger] digits[k]),
            0 <= value <= 0xB_0000_0000_0000_0000,
            !huge ==> value == number(digits.take(i - start)),
            huge ==> number(digits.take(i - start)) > 0x1_0000_0000_0000_0000,
        decreases chars.len() - i,
    {
        let c = chars[i];
        assert(c == digits[i - start]);
        if !('0' <= c && c <= '9') {
            return None;
        }
        assert(digits.take(i - start + 1).drop_last() =~= digits.take(i - start));
        assert(digits.take(i - start + 1).last() == c);
        if value > 0x1_0000_0000_0000_0000 {
            huge = true;
        } else {
            value = value * 10 + (c as i128 - '0' as i128);
        }
        i += 1;
    }
    assert(digits.take(i - start) =~= digits);
    if huge || value > 0x1_0000_0000_0000_0000 {
        return None;
    }
    if negative {
        value = -value;
    }
    if min <= value && value <= max {
        Some(value)
    } else {
        None
    }
}

/// Decimal digits are digits, and stand for the number they were made of.
proof fn lemma_decimal_is_number(n: nat)
    ensures
        decimal(n).len() > 0,
        forall|i: int| 0 <= i < decimal(n).len() ==> is_digit(#[trigger] decimal(n)[i]),
        number(decimal(n)) == n,
    decreases n,
{
    if n < 10 {
        assert(decimal(n).drop_last() =~= Seq::<char>::empty());
        assert(number(Seq::<char>::empty()) == 0);
        assert(decimal(n).last() == digit(n as int));
    } else {
        lemma_decimal_is_number(n / 10);
        assert(decimal(n).drop_last() =~= decimal(n / 10));
        assert(decimal(n).last() == digit((n % 10) as int));
    }
}

/// What is written in decimal reads back as the number it was.
pub proof fn law_decimal_round_trip(n: int, min: int, max: int)
    requires
        min <= n <= max,
        min <= 0,
    ensures
        spelled_int(signed_decimal(n), min, max) == Some(n),
{
    let magnitude = (if n < 0 {
        -n
    } else {
        n
    }) as nat;
    lemma_decimal_is_number(magnitude);
    let s = signed_decimal(n);
    if n < 0 {
        assert(s.skip(1) =~= decimal(magnitude));
    } else {
        assert(is_digit(s[0]));
    }
    assert(unsigned_part(s, min < 0) == decimal(magnitude));
}

/// Numbers are written in one way: digits without a zero in front of them, and a
/// minus sign exactly for those below 0.
pub proof fn law_numbers_are_written_in_one_way(n: int)
    ensures
        ({
            let text = signed_decimal(n);
            let start: int = if n < 0 {
                1
            } else {
                0
            };
            &&& text.len() > start
            &&& text[0] == '-' <==> n < 0
            &&& forall|i: int| start <= i < text.len() ==> '0' <= #[trigger] text[i] <= '9'
            &&& text[start] == '0' ==> n == 0 && text.len() == 1
        }),
{
    let magnitude = (if n < 0 {
        -n
    } else {
        n
    }) as nat;
    lemma_decimal_is_number(magnitude);
    lemma_decimal_start(magnitude);
    let text = signed_decimal(n);
    if n < 0 {
        assert forall|i: int| 1 <= i < text.len() implies '0' <= #[trigger] text[i] <= '9' by {
            assert(text[i] == decimal(magnitude)[i - 1]);
            assert(is_digit(decimal(magnitude)[i - 1]));
        }
    } else {
        assert(is_digit(text[0]));
    }
}

/// Only 0 is written with a zero in front.
proof fn lemma_decimal_start(n: nat)
    ensures
        decimal(n).len() > 0,
        decimal(n)[0] == '0' ==> n == 0 && decimal(n).len() == 1,
    decreases n,
{
    if n >= 10 {
        lemma_decimal_start(n / 10);
        assert(decimal(n)[0] == decimal(n / 10)[0]);
    }
}

/// Whether `needle` stands in `hay` from `at` on.
pub open spec fn stands_at(hay: Seq<char>, needle: Seq<char>, at: int) -> bool {
    0 <= at && at + needle.len() <= hay.len() && hay.subrange(at, at + needle.len()) == needle
}

/// Whether `needle` stands anywhere in `hay`.
pub open spec fn contains_text(hay: Seq<char>, needle: Seq<char>) -> bool {
    exists|at: int| stands_at(hay, needle, at)
}

fn stands_in(hay: &Vec<char>, needle: &Vec<char>, at: usize) -> (r: bool)
    requires
        at + needle.len() <= hay.len(),
    ensures
        r == stands_at(hay@, needle@, at as int),
{
    let mut i: usize = 0;
    while i < needle.len()
        invariant
            i <= needle.len(),
            at + needle.len() <= hay.len(),
            forall|k: int| 0 <= k < i ==> hay@[at + k] == #[trigger] needle@[k],
        decreases needle.len() - i,
    {
        if hay[at + i] != needle[i] {
            assert(hay@.subrange(at as int, at + needle.len())[i as int] != needle@[i as int]);
            return false;
        }
        i += 1;
    }
    assert(hay@.subrange(at as int, at + needle.len()) =~= needle@);
    true
}

/// Whether `needle` stands anywhere in `hay`.
pub fn contains(hay: &str, needle: &str) -> (r: bool)
    ensures
        r == contains_text(hay@, needle@),
{
    let text = chars_of(hay);
    let part = chars_of(needle);
    let mut at: usize = 0;
    while part.len() <= text.len() - at
        invariant
            text@ == hay@,
            part@ == needle@,
            at <= text.len(),
            forall|k: int| 0 <= k < at ==> !stands_at(hay@, needle@, k),
        decreases text.len() - at,
    {
        if stands_in(&text, &part, at) {
            return true;
        }
        if at == text.len() {
            return false;
        }
        at += 1;
    }
    false
}

/// A zero in front of digits does not change the number they stand for.
proof fn lemma_leading_zero(s: Seq<char>)
    ensures
        number(seq!['0'] + s) == number(s),
    decreases s.len(),
{
    let longer = seq!['0'] + s;
    if s.len() == 0 {
        assert(longer.drop_last() =~= Seq::<char>::empty());
        assert(number(Seq::<char>::empty()) == 0);
        assert(longer.last() == '0');
    } else {
        lemma_leading_zero(s.drop_last());
        assert(longer.drop_last() =~= seq!['0'] + s.drop_last());
        assert(longer.last() == s.last());
    }
}

/// A plus sign or zeros in front of a number change nothing, a minus sign turns it
/// round where there are negative numbers and is refused where there are none, and a
/// number out of range is refused.
pub proof fn law_numbers_are_read_as_written(n: nat, s: Seq<char>, min: int, max: int)
    requires
        min <= 0 <= max,
    ensures
        n <= max ==> spelled_int(decimal(n), min, max) == Some(n as int),
        n <= max ==> spelled_int(seq!['+'] + decimal(n), min, max) == Some(n as int),
        n > max ==> spelled_int(decimal(n), min, max) is None,
        n > max ==> spelled_int(seq!['+'] + decimal(n), min, max) is None,
        min <= -n && min < 0 ==> spelled_int(seq!['-'] + decimal(n), min, max) == Some(-n),
        -n < min ==> spelled_int(seq!['-'] + decimal(n), min, max) is None,
        min == 0 ==> spelled_int(seq!['-'] + decimal(n), min, max) is None,
        s.len() > 0 && is_digit(s[0]) ==> spelled_int(seq!['0'] + s, min, max) == spelled_int(
            s,
            min,
            max,
        ),
{
    let d = decimal(n);
    lemma_decimal_is_number(n);
    assert(is_digit(d[0]));
    assert((seq!['+'] + d).skip(1) =~= d);
    assert((seq!['-'] + d).skip(1) =~= d);
    if min == 0 {
        assert(!is_digit((seq!['-'] + d)[0]));
    }
    if s.len() > 0 && is_digit(s[0]) {
        let longer = seq!['0'] + s;
        lemma_leading_zero(s);
        if exists|i: int| 0 <= i < s.len() && !is_digit(#[trigger] s[i]) {
            let i = choose|i: int| 0 <= i < s.len() && !is_digit(#[trigger] s[i]);
            assert(!is_digit(longer[i + 1]));
        } else {
            assert forall|i: int| 0 <= i < longer.len() implies is_digit(#[trigger] longer[i]) by {
                if i > 0 {
                    assert(longer[i] == s[i - 1]);
                }
            }
        }
    }
}

/// Anything but digits behind the first character is refused, and so is nothing at
/// all; what is read is within the range.
pub proof fn law_nothing_else_is_read(s: Seq<char>, at: int, min: int, max: int)
    ensures
        s.len() == 0 ==> spelled_int(s, min, max) is None,
        0 < at < s.len() && !('0' <= s[at] <= '9') ==> spelled_int(s, min, max) is None,
        s.len() > 0 && !('0' <= s[0] <= '9') && s[0] != '+' && s[0] != '-' ==> spelled_int(
            s,
            min,
            max,
        ) is None,
        s.len() == 1 && !('0' <= s[0] <= '9') ==> spelled_int(s, min, max) is None,
        spelled_int(s, min, max) matches Some(n) ==> min <= n <= max,
{
    let digits = unsigned_part(s, min < 0);
    if 0 < at < s.len() && !('0' <= s[at] <= '9') {
        if digits == s {
            assert(!is_digit(digits[at]));
        } else {
            assert(digits[at - 1] == s[at]);
            assert(!is_digit(digits[at - 1]));
        }
    }
    if s.len() > 0 && !('0' <= s[0] <= '9') && digits == s {
        assert(!is_digit(digits[0]));
    }
}

/// A text that stands between two others is found, and what is found stands between
/// two others.
pub proof fn law_texts_are_found(before: Seq<char>, needle: Seq<char>, behind: Seq<char>)
    ensures
        contains_text(before + needle + behind, needle),
        forall|hay: Seq<char>|
            #[trigger] contains_text(hay, needle) ==> exists|a: Seq<char>, b: Seq<char>|
                hay == #[trigger] (a + needle + b),
{
    let at = before.len() as int;
    let all = before + needle + behind;
    assert(all.subrange(at, at + needle.len()) =~= needle);
    assert(stands_at(all, needle, at));
    assert forall|hay: Seq<char>| #[trigger] contains_text(hay, needle) implies exists|
        a: Seq<char>,
        b: Seq<char>,
    | hay == #[trigger] (a + needle + b) by {
        let at = choose|at: int| stands_at(hay, needle, at);
        let (a, b) = (hay.take(at), hay.skip(at + needle.len()));
        assert(hay =~= a + needle + b);
    }
}

} // verus!
