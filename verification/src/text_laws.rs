//! What numerals, trimming and comparisons are, character by character.

use crate::text;
use vstd::prelude::*;

verus! {

/// A numeral is the numeral of the tens followed by the digit of the ones.
pub proof fn law_decimal_digits(n: nat)
    ensures
        n < 10 ==> text::decimal(n) == seq![(48 + n) as char],
        n >= 10 ==> text::decimal(n) == text::decimal(n / 10) + seq![(48 + n % 10) as char],
{
    if n >= 10 {
        assert(text::decimal(n) =~= text::decimal(n / 10) + seq![(48 + n % 10) as char]);
    }
}

/// A numeral has no leading zero, but for zero itself.
pub proof fn law_decimal_has_no_leading_zero(n: nat)
    ensures
        n > 0 ==> text::decimal(n)[0] != '0',
        text::decimal(n).len() > 0,
    decreases n,
{
    if n >= 10 {
        law_decimal_has_no_leading_zero(n / 10);
        assert(text::decimal(n)[0] == text::decimal(n / 10)[0]);
    }
}

/// A negative number is a minus sign and the numeral of its opposite.
pub proof fn law_signed_decimal(i: int)
    ensures
        i >= 0 ==> text::signed_decimal(i) == text::decimal(i as nat),
        i < 0 ==> text::signed_decimal(i) == seq!['-'] + text::decimal((-i) as nat),
{
}

/// One more digit makes the number ten times as large, plus the digit.
pub proof fn law_decimal_value_digits(s: Seq<char>, c: char)
    ensures
        text::decimal_value(seq![]) == 0,
        '0' <= c <= '9' ==> text::decimal_value(s.push(c)) == 10 * text::decimal_value(s) + (
        c as int - 48),
{
    assert(s.push(c).drop_last() =~= s);
}

/// A port is at least one digit and nothing else, but for a plus sign before the
/// digits, and below 65536; every such text is a port.
pub proof fn law_u16_value(s: Seq<char>, digits: Seq<char>)
    requires
        s == digits || s == seq!['+'] + digits,
        digits.len() > 0 ==> digits[0] != '+',
    ensures
        ({
            let valid = digits.len() > 0 && (forall|i: int|
                0 <= i < digits.len() ==> '0' <= #[trigger] digits[i] <= '9')
                && text::decimal_value(digits) <= 65535;
            &&& valid ==> text::u16_value(s) == Some(text::decimal_value(digits) as u16)
            &&& !valid ==> text::u16_value(s) is None
        }),
{
    if s == seq!['+'] + digits {
        assert(s.skip(1) =~= digits);
    }
    assert(text::unsigned_digits(s) =~= digits);
    let valid = digits.len() > 0 && (forall|i: int|
        0 <= i < digits.len() ==> '0' <= #[trigger] digits[i] <= '9') && text::decimal_value(digits)
        <= 65535;
    if text::all_digits(digits) {
        assert forall|i: int| 0 <= i < digits.len() implies '0' <= #[trigger] digits[i]
            <= '9' by {
            assert(text::is_digit(digits[i]));
        }
    }
}

/// A second plus sign is no digit.
pub proof fn law_u16_value_has_one_sign(s: Seq<char>)
    requires
        s.len() > 1,
        s[0] == '+',
        s[1] == '+',
    ensures
        text::u16_value(s) is None,
{
    assert(s.skip(1)[0] == '+');
    assert(!text::is_digit(text::unsigned_digits(s)[0]));
}

/// Every byte is two hexadecimal digits in lower case, the upper four bits first.
pub proof fn law_hex_digits(data: Seq<u8>, i: int)
    requires
        0 <= i < data.len(),
    ensures
        ({
            let hi = data[i] as int / 16;
            let lo = data[i] as int % 16;
            &&& text::hex(data).len() == 2 * data.len()
            &&& text::hex(data)[2 * i] == if hi < 10 {
                (48 + hi) as char
            } else {
                (87 + hi) as char
            }
            &&& text::hex(data)[2 * i + 1] == if lo < 10 {
                (48 + lo) as char
            } else {
                (87 + lo) as char
            }
        }),
    decreases data.len(),
{
    lemma_hex_len(data);
    lemma_hex_len(data.drop_last());
    if i < data.len() - 1 {
        law_hex_digits(data.drop_last(), i);
    }
}

/// A byte is two digits.
pub proof fn lemma_hex_len(data: Seq<u8>)
    ensures
        text::hex(data).len() == 2 * data.len(),
    decreases data.len(),
{
    if data.len() > 0 {
        lemma_hex_len(data.drop_last());
    }
}

/// A text starts with another one where it has its characters at its start.
pub proof fn law_starts_with(s: Seq<char>, p: Seq<char>)
    ensures
        text::starts_with(s, p) <==> (p.len() <= s.len() && forall|i: int|
            0 <= i < p.len() ==> s[i] == #[trigger] p[i]),
        forall|rest: Seq<char>| #[trigger] text::starts_with(p + rest, p),
{
    if p.len() <= s.len() && (forall|i: int| 0 <= i < p.len() ==> s[i] == #[trigger] p[i]) {
        assert(s.take(p.len() as int) =~= p);
    }
    if text::starts_with(s, p) {
        assert forall|i: int| 0 <= i < p.len() implies s[i] == #[trigger] p[i] by {
            assert(s.take(p.len() as int)[i] == s[i]);
        }
    }
    assert forall|rest: Seq<char>| #[trigger] text::starts_with(p + rest, p) by {
        assert((p + rest).take(p.len() as int) =~= p);
    }
}

/// Whitespace is what Unicode calls so.
pub proof fn law_white_space(c: char)
    ensures
        text::is_white_space(c) <==> (0x9 <= c as u32 <= 0xD || c == ' ' || c as u32 == 0x85
            || c as u32 == 0xA0 || c as u32 == 0x1680 || 0x2000 <= c as u32 <= 0x200A || c as u32
            == 0x2028 || c as u32 == 0x2029 || c as u32 == 0x202F || c as u32 == 0x205F || c as u32
            == 0x3000),
{
}

/// Trimming takes off the whitespace around a text and nothing else.
pub proof fn law_trimmed_is_the_middle(before: Seq<char>, middle: Seq<char>, after: Seq<char>)
    requires
        forall|i: int| 0 <= i < before.len() ==> text::is_white_space(#[trigger] before[i]),
        forall|i: int| 0 <= i < after.len() ==> text::is_white_space(#[trigger] after[i]),
        middle.len() > 0 ==> !text::is_white_space(middle[0]) && !text::is_white_space(
            middle.last(),
        ),
    ensures
        text::trimmed(before + middle + after) == middle,
    decreases before.len() + after.len(),
{
    let s = before + middle + after;
    if before.len() > 0 {
        assert(s[0] == before[0]);
        assert(s.drop_first() =~= before.drop_first() + middle + after);
        law_trimmed_is_the_middle(before.drop_first(), middle, after);
    } else if after.len() > 0 {
        assert(s.last() == after.last());
        if middle.len() == 0 {
            assert(s[0] == after[0]);
            assert(s.drop_first() =~= before + middle + after.drop_first());
            law_trimmed_is_the_middle(before, middle, after.drop_first());
        } else {
            assert(s[0] == middle[0]);
            assert(s.drop_last() =~= before + middle + after.drop_last());
            law_trimmed_is_the_middle(before, middle, after.drop_last());
        }
    } else {
        assert(s =~= middle);
        if middle.len() > 0 {
            assert(s[0] == middle[0] && s.last() == middle.last());
        }
    }
}

/// Every text is its trimmed text with whitespace around it.
pub proof fn law_trimmed_splits(s: Seq<char>) -> (r: (Seq<char>, Seq<char>))
    ensures
        s == r.0 + text::trimmed(s) + r.1,
        forall|i: int| 0 <= i < r.0.len() ==> text::is_white_space(#[trigger] r.0[i]),
        forall|i: int| 0 <= i < r.1.len() ==> text::is_white_space(#[trigger] r.1[i]),
    decreases s.len(),
{
    if s.len() > 0 && text::is_white_space(s[0]) {
        let (a, b) = law_trimmed_splits(s.drop_first());
        let first = seq![s[0]] + a;
        assert(s =~= seq![s[0]] + s.drop_first());
        assert(first + text::trimmed(s) + b =~= seq![s[0]] + (a + text::trimmed(s) + b));
        assert forall|i: int| 0 <= i < first.len() implies text::is_white_space(
            #[trigger] first[i],
        ) by {
            if i > 0 {
                assert(first[i] == a[i - 1]);
            }
        }
        (first, b)
    } else if s.len() > 0 && text::is_white_space(s.last()) {
        let (a, b) = law_trimmed_splits(s.drop_last());
        let last = b + seq![s.last()];
        assert(s =~= s.drop_last() + seq![s.last()]);
        assert(a + text::trimmed(s) + last =~= (a + text::trimmed(s) + b) + seq![s.last()]);
        assert forall|i: int| 0 <= i < last.len() implies text::is_white_space(
            #[trigger] last[i],
        ) by {
            if i < b.len() {
                assert(last[i] == b[i]);
            }
        }
        (a, last)
    } else {
        assert(s =~= Seq::<char>::empty() + text::trimmed(s) + Seq::<char>::empty());
        (seq![], seq![])
    }
}

/// Trimming keeps every character that is not whitespace.
pub proof fn law_trimmed_keeps(s: Seq<char>, c: char)
    requires
        !text::is_white_space(c),
    ensures
        text::trimmed(s).contains(c) <==> s.contains(c),
{
    let (a, b) = law_trimmed_splits(s);
    let t = text::trimmed(s);
    let whole = a + t + b;
    if t.contains(c) {
        let i = choose|i: int| 0 <= i < t.len() && t[i] == c;
        assert(whole[a.len() + i] == c);
    }
    if s.contains(c) {
        let i = choose|i: int| 0 <= i < s.len() && s[i] == c;
        assert(whole[i] == c);
        if i < a.len() {
            assert(text::is_white_space(a[i]));
        } else if i >= a.len() + t.len() {
            assert(text::is_white_space(b[i - a.len() - t.len()]));
        } else {
            assert(t[i - a.len()] == c);
        }
    }
}

/// Letter case is ignored for the letters A to Z alone: two characters match
/// where they are the same or one is the other in lower case.
pub proof fn law_same_ignoring_case(a: Seq<char>, b: Seq<char>)
    ensures
        text::same_ignoring_case(a, b) <==> (a.len() == b.len() && forall|i: int|
            0 <= i < a.len() ==> (#[trigger] a[i] == b[i] || ('A' <= a[i] <= 'Z' && b[i] as int
                == a[i] as int + 32) || ('A' <= b[i] <= 'Z' && a[i] as int == b[i] as int + 32))),
{
    assert forall|x: char, y: char|
        #[trigger] text::ascii_lower(x) == #[trigger] text::ascii_lower(y) <==> (x == y || ('A' <= x
            <= 'Z' && y as int == x as int + 32) || ('A' <= y <= 'Z' && x as int == y as int
            + 32)) by {}
    if text::same_ignoring_case(a, b) {
        assert forall|i: int| 0 <= i < a.len() implies (#[trigger] a[i] == b[i] || ('A' <= a[i]
            <= 'Z' && b[i] as int == a[i] as int + 32) || ('A' <= b[i] <= 'Z' && a[i] as int
            == b[i] as int + 32)) by {
            assert(text::ascii_lower(a[i]) == text::ascii_lower(b[i]));
        }
    }
}

} // verus!
