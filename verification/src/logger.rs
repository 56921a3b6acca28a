//! The debug log.

use crate::text;
use vstd::prelude::*;
use vstd::slice::slice_subrange;
use vstd::string::*;

verus! {

/// `n` in two decimal digits.
pub open spec fn two_digits(n: nat) -> Seq<char> {
    seq![text::digit(n / 10), text::digit(n % 10)]
}

/// The time of day, `secs` seconds after midnight of some day.
pub open spec fn clock(secs: nat) -> Seq<char> {
    two_digits(secs / 3600 % 24) + seq![':'] + two_digits(secs / 60 % 60) + seq![':']
        + two_digits(secs % 60)
}

fn push_two_digits(s: &mut String, n: u64)
    requires
        n < 100,
    ensures
        final(s)@ == old(s)@ + two_digits(n as nat),
{
    s.push((48u8 + (n / 10) as u8) as char);
    s.push((48u8 + (n % 10) as u8) as char);
    assert(s@ =~= old(s)@ + two_digits(n as nat));
}

/// The time of day at `secs` seconds after the epoch, as hours, minutes and
/// seconds.
pub fn now_str(secs: u64) -> (r: String)
    ensures
        r@ == clock(secs as nat),
{
    let mut s: String = String::new();
    push_two_digits(&mut s, secs / 3600 % 24);
    s.push(':');
    push_two_digits(&mut s, secs / 60 % 60);
    s.push(':');
    push_two_digits(&mut s, secs % 60);
    assert(s@ =~= clock(secs as nat));
    s
}

/// How often `p` occurs in `s`, counted from the start and without overlap.
pub open spec fn occurrences(s: Seq<char>, p: Seq<char>) -> nat
    decreases s.len(),
{
    if p.len() == 0 || s.len() < p.len() {
        0
    } else if text::starts_with(s, p) {
        1 + occurrences(s.skip(p.len() as int), p)
    } else {
        occurrences(s.drop_first(), p)
    }
}

/// Counts how often `p` occurs in `s`.
fn count_occurrences(s: &[char], p: &str) -> (r: usize)
    requires
        p@.len() > 0,
    ensures
        r == occurrences(s@, p@),
        r * p@.len() <= s@.len(),
{
    let n: usize = s.len();
    let step: usize = text::chars_of(p).len();
    let mut at: usize = 0;
    let mut count: usize = 0;
    assert(s@.skip(0) =~= s@);
    while at < n
        invariant
            at <= n == s@.len(),
            step == p@.len() > 0,
            count + occurrences(s@.skip(at as int), p@) == occurrences(s@, p@),
            count * step <= at,
            count <= at,
        decreases n - at,
    {
        let rest: &[char] = slice_subrange(s, at, n);
        assert(rest@ =~= s@.skip(at as int));
        if text::has_prefix(rest, p) {
            assert(rest@.skip(step as int) =~= s@.skip(at + step));
            assert((count + 1) * step == count * step + step) by (nonlinear_arith);
            at = at + step;
            count = count + 1;
        } else {
            assert(rest@.drop_first() =~= s@.skip(at + 1));
            at = at + 1;
        }
    }
    count
}

/// What every line that marks a start holds.
pub open spec fn round_mark() -> Seq<char> {
    "===== 第"@
}

/// The number of the round that starts on the given log.
pub open spec fn round_of(log: Option<Seq<char>>) -> nat {
    match log {
        Some(s) => occurrences(s, round_mark()) + 1,
        None => 1,
    }
}

/// The line that marks a start.
pub open spec fn start_line(round: nat, secs: nat) -> Seq<char> {
    "\n===== 第 "@ + text::decimal(round) + " 轮 启动于 "@ + clock(secs) + " =====\n"@
}

/// A log as far as it can be read.
pub open spec fn log_view(log: Option<&str>) -> Option<Seq<char>> {
    match log {
        Some(s) => Some(s@),
        None => None,
    }
}

/// The number of the round that starts now, and the line that marks it.
pub fn init(log: Option<&str>, secs: u64) -> (r: (usize, String))
    ensures
        r.0 == round_of(log_view(log)),
        r.1@ == start_line(r.0 as nat, secs as nat),
{
    let round: usize = match log {
        Some(s) => {
            let v: Vec<char> = text::chars_of(s);
            proof {
                reveal_strlit("===== 第");
            }
            let seen: usize = count_occurrences(v.as_slice(), "===== 第");
            assert(seen * 7 <= v.len());
            seen + 1
        },
        None => 1,
    };
    let mut line: String = String::new();
    line.append("\n===== 第 ");
    text::push_decimal(&mut line, round as u64);
    line.append(" 轮 启动于 ");
    line.append(now_str(secs).as_str());
    line.append(" =====\n");
    assert(line@ =~= start_line(round as nat, secs as nat));
    (round, line)
}

/// A message as a line of the log.
pub fn debug(msg: &str) -> (r: String)
    ensures
        r@ == msg@ + seq!['\n'],
{
    let mut line: String = msg.to_owned();
    line.push('\n');
    assert(line@ =~= msg@ + seq!['\n']);
    line
}

// ---------------------------------------------------------------- laws

/// Text that starts with a line break counts on its own after any text, for a
/// pattern without line break.
proof fn lemma_occurrences_split(a: Seq<char>, b: Seq<char>, p: Seq<char>)
    requires
        p.len() > 0,
        b.len() > 0,
        b[0] == '\n',
        !p.contains('\n'),
    ensures
        occurrences(a + b, p) == occurrences(a, p) + occurrences(b, p),
    decreases a.len(),
{
    let s = a + b;
    if a.len() == 0 {
        assert(s =~= b);
    } else if a.len() < p.len() {
        if text::starts_with(s, p) {
            assert(s.take(p.len() as int)[a.len() as int] == '\n');
            assert(p[a.len() as int] == '\n');
        }
        assert(s.drop_first() =~= a.drop_first() + b);
        lemma_occurrences_split(a.drop_first(), b, p);
        if s.len() < p.len() {
            assert(occurrences(b, p) == 0);
        }
    } else {
        assert(s.take(p.len() as int) =~= a.take(p.len() as int));
        if text::starts_with(a, p) {
            assert(s.skip(p.len() as int) =~= a.skip(p.len() as int) + b);
            lemma_occurrences_split(a.skip(p.len() as int), b, p);
        } else {
            assert(s.drop_first() =~= a.drop_first() + b);
            lemma_occurrences_split(a.drop_first(), b, p);
        }
    }
}

/// Text that ends with a line break counts on its own before any text, for a
/// pattern without line break.
proof fn lemma_occurrences_after(a: Seq<char>, b: Seq<char>, p: Seq<char>)
    requires
        p.len() > 0,
        a.len() > 0 ==> a.last() == '\n',
        !p.contains('\n'),
    ensures
        occurrences(a + b, p) == occurrences(a, p) + occurrences(b, p),
    decreases a.len(),
{
    let s = a + b;
    let n = p.len() as int;
    if a.len() == 0 {
        assert(s =~= b);
    } else if a.len() < n {
        if text::starts_with(s, p) {
            assert(s.take(n)[a.len() - 1] == '\n');
            assert(p[a.len() - 1] == '\n');
        }
        assert(s.drop_first() =~= a.drop_first() + b);
        lemma_occurrences_after(a.drop_first(), b, p);
    } else {
        assert(s.take(n) =~= a.take(n));
        if text::starts_with(a, p) {
            assert(s.skip(n) =~= a.skip(n) + b);
            lemma_occurrences_after(a.skip(n), b, p);
        } else {
            assert(s.drop_first() =~= a.drop_first() + b);
            lemma_occurrences_after(a.drop_first(), b, p);
        }
    }
}

/// A pattern does not occur where its last character does not.
proof fn lemma_no_occurrence(s: Seq<char>, p: Seq<char>)
    requires
        p.len() > 0,
        !s.contains(p.last()),
    ensures
        occurrences(s, p) == 0,
    decreases s.len(),
{
    if s.len() >= p.len() {
        if text::starts_with(s, p) {
            assert(s.take(p.len() as int)[p.len() - 1] == p.last());
            assert(s[p.len() - 1] == p.last());
        }
        assert forall|i: int| 0 <= i < s.drop_first().len() implies s.drop_first()[i]
            != p.last() by {
            assert(s[i + 1] != p.last());
        }
        lemma_no_occurrence(s.drop_first(), p);
    }
}

/// The line that marks a start is counted once.
proof fn lemma_start_line_counts(round: nat, secs: nat)
    ensures
        occurrences(start_line(round, secs), round_mark()) == 1,
{
    reveal_strlit("===== 第");
    reveal_strlit("\n===== 第 ");
    reveal_strlit(" 轮 启动于 ");
    reveal_strlit(" =====\n");
    let p = round_mark();
    let line = start_line(round, secs);
    text::law_decimal_roundtrip(round);
    let rest = " "@ + text::decimal(round) + " 轮 启动于 "@ + clock(secs) + " =====\n"@;
    reveal_strlit(" ");
    assert(line[0] == '\n' && p[0] == '=');
    assert(line.take(7)[0] == '\n');
    assert(!text::starts_with(line, p));
    let tail = line.drop_first();
    assert(tail.take(7) =~= p);
    assert(tail.skip(7) =~= rest);
    let numeral = text::decimal(round);
    let middle = " 轮 启动于 "@;
    let time = clock(secs);
    let end = " =====\n"@;
    assert forall|i: int| 0 <= i < rest.len() implies rest[i] != p.last() by {
        let k1 = 1 + numeral.len();
        let k2 = k1 + middle.len();
        let k3 = k2 + time.len();
        if i == 0 {
        } else if i < k1 {
            assert(rest[i] == numeral[i - 1]);
            assert(text::is_digit(numeral[i - 1]));
        } else if i < k2 {
            assert(rest[i] == middle[i - k1]);
        } else if i < k3 {
            assert(rest[i] == time[i - k2]);
        } else {
            assert(rest[i] == end[i - k3]);
        }
    }
    lemma_no_occurrence(rest, p);
    assert(occurrences(tail, p) == 1 + occurrences(rest, p));
    assert(occurrences(line, p) == occurrences(tail, p));
}

/// Rounds are numbered one after the other: once the line that marks a start is
/// on the log, the next start has the next number, whatever is logged between
/// the two, as long as it does not hold the mark itself. Each mark in what is
/// logged between counts as a start too.
pub proof fn law_rounds_count_up(log: Seq<char>, secs: nat, between: Seq<char>)
    ensures
        round_of(Some(log + start_line(round_of(Some(log)), secs) + between)) == round_of(Some(log))
            + 1 + occurrences(between, round_mark()),
        occurrences(between, round_mark()) == 0 ==> round_of(
            Some(log + start_line(round_of(Some(log)), secs) + between),
        ) == round_of(Some(log)) + 1,
{
    reveal_strlit("===== 第");
    reveal_strlit("\n===== 第 ");
    reveal_strlit(" =====\n");
    let line = start_line(round_of(Some(log)), secs);
    assert(line[0] == '\n');
    assert(line.last() == " =====\n"@.last());
    assert(log + line + between =~= log + (line + between));
    lemma_occurrences_split(log, line + between, round_mark());
    lemma_occurrences_after(line, between, round_mark());
    lemma_start_line_counts(round_of(Some(log)), secs);
}

/// The first round on a log that cannot be read is the first of all, and the
/// next start on what it wrote is the second.
pub proof fn law_first_round(secs: nat)
    ensures
        round_of(None) == 1,
        round_of(Some(start_line(1, secs))) == 2,
{
    lemma_start_line_counts(1, secs);
}

/// The time of day has two digits each for hours, minutes and seconds.
pub proof fn law_clock_digits(secs: nat)
    ensures
        ({
            let s = clock(secs);
            let h = secs / 3600 % 24;
            let m = secs / 60 % 60;
            &&& s.len() == 8
            &&& s[0] as int == 48 + h / 10 && s[1] as int == 48 + h % 10
            &&& s[2] == ':'
            &&& s[3] as int == 48 + m / 10 && s[4] as int == 48 + m % 10
            &&& s[5] == ':'
            &&& s[6] as int == 48 + secs % 60 / 10 && s[7] as int == 48 + secs % 60 % 10
        }),
{
}

/// Occurrences are counted from the start: one that stands at the start counts
/// once and is passed over whole, and another character is passed over.
pub proof fn law_occurrences(p: Seq<char>, rest: Seq<char>, c: char)
    requires
        p.len() > 0,
    ensures
        occurrences(p + rest, p) == 1 + occurrences(rest, p),
        (seq![c] + rest).take(p.len() as int) != p || rest.len() + 1 < p.len() ==> occurrences(
            seq![c] + rest,
            p,
        ) == occurrences(rest, p),
        occurrences(Seq::<char>::empty(), p) == 0,
{
    assert((p + rest).take(p.len() as int) =~= p);
    assert((p + rest).skip(p.len() as int) =~= rest);
    assert((seq![c] + rest).drop_first() =~= rest);
}

/// The number of a round is one more than the marks on the log, or one where
/// there is no log.
pub proof fn law_round_numbers(log: Seq<char>)
    ensures
        round_of(Some(log)) == occurrences(log, "===== 第"@) + 1,
        round_of(None) == 1,
        forall|s: &str| log_view(Some(s)) == Some(#[trigger] s@),
        log_view(None) is None,
{
}

/// The line that marks a start holds the number of the round and the time.
pub proof fn law_start_line(round: nat, secs: nat)
    ensures
        start_line(round, secs) == "\n===== 第 "@ + text::decimal(round) + " 轮 启动于 "@ + clock(
            secs,
        ) + " =====\n"@,
{
}

} // verus!
