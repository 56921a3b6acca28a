//! How long the debug log is kept.
//!
//! The lines of a log do not tell when they were written. An index beside the
//! log does: it has one mark for each entry.

use crate::bytes;
use vstd::prelude::*;
use vstd::slice::slice_subrange;

verus! {

/// An entry that was written longer ago than this many seconds is dropped.
pub const KEEP_SECS: u64 = 604_800;

/// A log of more bytes than this is set aside.
pub const MAX_LOG_SIZE: u64 = 1_048_576;

/// The logs are looked after once in so many seconds.
pub const CHECK_SECS: u64 = 3_600;

/// When an entry was written, and where in the log it ends.
#[derive(Debug, Clone, Copy, PartialEq, Eq, Structural)]
pub struct Mark {
    /// Seconds after the epoch.
    pub written: u64,
    pub end: u64,
}

/// A log with the marks of its entries.
#[derive(Debug, PartialEq, Eq)]
pub struct Log {
    pub data: Vec<u8>,
    pub marks: Vec<Mark>,
}

/// A log with the marks of its entries.
#[verifier::ext_equal]
pub struct LogView {
    pub data: Seq<u8>,
    pub marks: Seq<Mark>,
}

impl View for Log {
    type V = LogView;

    open spec fn view(&self) -> LogView {
        LogView { data: self.data@, marks: self.marks@ }
    }
}

/// Whether marks can belong to a log of the given size: each entry ends where
/// the one before it ends or later, and none ends after the log.
pub open spec fn marks_fit(marks: Seq<Mark>, size: nat) -> bool {
    &&& forall|i: int, j: int| 0 <= i <= j < marks.len() ==> marks[i].end <= marks[j].end
    &&& forall|i: int| 0 <= i < marks.len() ==> (#[trigger] marks[i]).end <= size
}

/// Where the last entry ends.
pub open spec fn marked_size(marks: Seq<Mark>) -> nat {
    if marks.len() == 0 {
        0
    } else {
        marks.last().end as nat
    }
}

impl LogView {
    /// A log without entries.
    pub open spec fn empty() -> LogView {
        LogView { data: seq![], marks: seq![] }
    }

    /// Where entry `i` starts.
    pub open spec fn start(self, i: int) -> int {
        if i <= 0 {
            0
        } else {
            self.marks[i - 1].end as int
        }
    }

    /// What entry `i` says.
    pub open spec fn entry(self, i: int) -> Seq<u8> {
        self.data.subrange(self.start(i), self.marks[i].end as int)
    }

    /// The entries make up the log.
    pub open spec fn well_formed(self) -> bool {
        &&& marks_fit(self.marks, self.data.len())
        &&& marked_size(self.marks) == self.data.len()
    }

    /// The clock was not set back while the entries were written.
    pub open spec fn in_order(self) -> bool {
        forall|i: int, j: int|
            0 <= i <= j < self.marks.len() ==> self.marks[i].written <= self.marks[j].written
    }

    /// Whether the log holds an entry with the given text and time.
    pub open spec fn holds(self, text: Seq<u8>, written: u64) -> bool {
        exists|j: int|
            0 <= j < self.marks.len() && #[trigger] self.entry(j) == text && self.marks[j].written
                == written
    }
}

// ---------------------------------------------------------------- the index

/// A mark as it stands in an index.
pub open spec fn mark_bytes(m: Mark) -> Seq<u8> {
    bytes::be_bytes(m.written as nat, 8) + bytes::be_bytes(m.end as nat, 8)
}

/// An index: mark after mark.
pub open spec fn index_of(marks: Seq<Mark>) -> Seq<u8>
    decreases marks.len(),
{
    if marks.len() == 0 {
        seq![]
    } else {
        index_of(marks.drop_last()) + mark_bytes(marks.last())
    }
}

/// Mark `i` of an index.
pub open spec fn mark_at(index: Seq<u8>, i: int) -> Mark {
    Mark {
        written: bytes::be_value(index.subrange(16 * i, 16 * i + 8)) as u64,
        end: bytes::be_value(index.subrange(16 * i + 8, 16 * i + 16)) as u64,
    }
}

/// The marks of an index; an incomplete one at its end is left out.
pub open spec fn marks_of(index: Seq<u8>) -> Seq<Mark> {
    Seq::new(index.len() / 16, |i: int| mark_at(index, i))
}

/// Writes an index.
pub fn encode_marks(marks: &[Mark]) -> (out: Vec<u8>)
    ensures
        out@ == index_of(marks@),
{
    let mut out: Vec<u8> = Vec::new();
    let mut i: usize = 0;
    while i < marks.len()
        invariant
            i <= marks@.len(),
            out@ == index_of(marks@.take(i as int)),
        decreases marks@.len() - i,
    {
        let ghost before = out@;
        bytes::push_be(&mut out, marks[i].written, 8);
        bytes::push_be(&mut out, marks[i].end, 8);
        proof {
            let t = marks@.take(i + 1);
            assert(t.drop_last() =~= marks@.take(i as int));
            assert(out@ =~= before + mark_bytes(t.last()));
        }
        i = i + 1;
    }
    assert(marks@.take(i as int) =~= marks@);
    out
}

/// Reads an index.
pub fn decode_marks(index: &[u8]) -> (marks: Vec<Mark>)
    ensures
        marks@ == marks_of(index@),
{
    let n: usize = index.len() / 16;
    let mut marks: Vec<Mark> = Vec::new();
    let mut i: usize = 0;
    while i < n
        invariant
            i <= n == index@.len() / 16,
            marks@ == marks_of(index@).take(i as int),
        decreases n - i,
    {
        assert(index.len() == index@.len() && 16 * (i + 1) <= index.len());
        let at: usize = 16 * i;
        let written: u64 = bytes::read_be(slice_subrange(index, at, at + 8));
        let end: u64 = bytes::read_be(slice_subrange(index, at + 8, at + 16));
        marks.push(Mark { written, end });
        i = i + 1;
        assert(marks@ =~= marks_of(index@).take(i as int));
    }
    assert(marks_of(index@).take(i as int) =~= marks_of(index@));
    marks
}

/// Whether marks can belong to a log of the given size.
fn do_marks_fit(marks: &[Mark], size: u64) -> (r: bool)
    ensures
        r == marks_fit(marks@, size as nat),
{
    let mut last: u64 = 0;
    let mut i: usize = 0;
    while i < marks.len()
        invariant
            i <= marks@.len(),
            last <= size,
            forall|j: int| 0 <= j < i ==> (#[trigger] marks@[j]).end <= last,
            i > 0 ==> marks@[i - 1].end == last,
            i == 0 ==> last == 0,
            forall|j: int, k: int| 0 <= j <= k < i ==> marks@[j].end <= marks@[k].end,
        decreases marks@.len() - i,
    {
        let end: u64 = marks[i].end;
        if end < last || end > size {
            return false;
        }
        last = end;
        i = i + 1;
    }
    true
}

/// A log as it is found, with the marks of its index, and with one mark at the
/// time of the last write for what the index does not cover. An index that does
/// not fit the log is not used.
pub open spec fn dated_view(data: Seq<u8>, index: Seq<u8>, modified: u64) -> LogView {
    let marks = if marks_fit(marks_of(index), data.len()) {
        marks_of(index)
    } else {
        seq![]
    };
    if marked_size(marks) == data.len() {
        LogView { data, marks }
    } else {
        LogView { data, marks: marks.push(Mark { written: modified, end: data.len() as u64 }) }
    }
}

/// A log as it is found, by its bytes, its index and the time of its last write.
pub fn dated(data: Vec<u8>, index: &[u8], modified: u64) -> (r: Log)
    ensures
        r@ == dated_view(data@, index@, modified),
        r@.well_formed(),
{
    let size: u64 = data.len() as u64;
    let mut marks: Vec<Mark> = decode_marks(index);
    if !do_marks_fit(marks.as_slice(), size) {
        marks = Vec::new();
        assert(marks@ =~= seq![]);
    }
    let covered: u64 = if marks.len() == 0 {
        0
    } else {
        marks[marks.len() - 1].end
    };
    if covered != size {
        marks.push(Mark { written: modified, end: size });
    }
    Log { data, marks }
}

// ---------------------------------------------------------------- upkeep

/// Whether an entry is too old to be kept.
pub open spec fn is_stale(m: Mark, now: u64) -> bool {
    now - m.written > KEEP_SECS
}

/// How many entries at the start of a log are too old to be kept.
pub open spec fn stale_count(marks: Seq<Mark>, now: u64) -> nat
    decreases marks.len(),
{
    if marks.len() == 0 || !is_stale(marks[0], now) {
        0
    } else {
        1 + stale_count(marks.drop_first(), now)
    }
}

/// A log without the first `k` entries.
pub open spec fn without_first(l: LogView, k: nat) -> LogView {
    let cut = l.start(k as int);
    LogView {
        data: l.data.skip(cut),
        marks: Seq::new(
            (l.marks.len() - k) as nat,
            |i: int|
                Mark { written: l.marks[i + k].written, end: (l.marks[i + k].end - cut) as u64 },
        ),
    }
}

/// A log without the entries at its start that are too old to be kept.
pub open spec fn without_stale(l: LogView, now: u64) -> LogView {
    without_first(l, stale_count(l.marks, now))
}

/// The log and the one that was set aside, after they have been looked after:
/// both without stale entries, and a log that was too large set aside in the
/// place of the one before.
pub open spec fn looked_after(log: LogView, aside: LogView, now: u64) -> (LogView, LogView) {
    if log.data.len() > MAX_LOG_SIZE {
        (LogView::empty(), without_stale(log, now))
    } else {
        (without_stale(log, now), without_stale(aside, now))
    }
}

/// The first entries are stale, and the next one is not.
proof fn lemma_stale_count(marks: Seq<Mark>, now: u64)
    ensures
        stale_count(marks, now) <= marks.len(),
        forall|i: int| 0 <= i < stale_count(marks, now) ==> is_stale(#[trigger] marks[i], now),
        stale_count(marks, now) < marks.len() ==> !is_stale(
            marks[stale_count(marks, now) as int],
            now,
        ),
    decreases marks.len(),
{
    if marks.len() > 0 && is_stale(marks[0], now) {
        let rest = marks.drop_first();
        lemma_stale_count(rest, now);
        assert forall|i: int| 0 <= i < stale_count(marks, now) implies is_stale(
            #[trigger] marks[i],
            now,
        ) by {
            if i > 0 {
                assert(marks[i] == rest[i - 1]);
            }
        }
    }
}

/// Counts the entries at the start of a log that are too old to be kept.
fn count_stale(marks: &[Mark], now: u64) -> (r: usize)
    ensures
        r == stale_count(marks@, now),
        r <= marks@.len(),
{
    let mut i: usize = 0;
    assert(marks@.skip(0) =~= marks@);
    while i < marks.len() && now > marks[i].written && now - marks[i].written > KEEP_SECS
        invariant
            i <= marks@.len(),
            stale_count(marks@, now) == i + stale_count(marks@.skip(i as int), now),
        decreases marks@.len() - i,
    {
        assert(marks@.skip(i as int).drop_first() =~= marks@.skip(i + 1));
        i = i + 1;
    }
    i
}

/// Drops the entries at the start of a log that are too old to be kept.
pub fn drop_stale(log: Log, now: u64) -> (r: Log)
    requires
        log@.well_formed(),
    ensures
        r@ == without_stale(log@, now),
        r@.well_formed(),
{
    let k: usize = count_stale(log.marks.as_slice(), now);
    let cut: u64 = if k == 0 {
        0
    } else {
        log.marks[k - 1].end
    };
    let data: Vec<u8> = bytes::copy_range(log.data.as_slice(), cut as usize, log.data.len());
    let mut marks: Vec<Mark> = Vec::new();
    let mut i: usize = k;
    while i < log.marks.len()
        invariant
            log@.well_formed(),
            k <= i <= log.marks@.len(),
            k == stale_count(log@.marks, now),
            cut == log@.start(k as int),
            marks@ == without_first(log@, k as nat).marks.take(i - k),
        decreases log.marks@.len() - i,
    {
        let m: Mark = log.marks[i];
        assert(cut <= m.end);
        marks.push(Mark { written: m.written, end: m.end - cut });
        i = i + 1;
        assert(marks@ =~= without_first(log@, k as nat).marks.take(i - k));
    }
    let r = Log { data, marks };
    proof {
        let want = without_first(log@, k as nat);
        assert(want.marks.take(i - k) =~= want.marks);
        assert(r@.data =~= want.data);
        lemma_without_first(log@, k as nat);
    }
    r
}

/// Looks after the log and the one that was set aside.
pub fn look_after(log: Log, aside: Log, now: u64) -> (r: (Log, Log))
    requires
        log@.well_formed(),
        aside@.well_formed(),
    ensures
        (r.0@, r.1@) == looked_after(log@, aside@, now),
        r.0@.well_formed(),
        r.1@.well_formed(),
{
    if log.data.len() as u64 > MAX_LOG_SIZE {
        let fresh = Log { data: Vec::new(), marks: Vec::new() };
        assert(fresh@ =~= LogView::empty());
        (fresh, drop_stale(log, now))
    } else {
        (drop_stale(log, now), drop_stale(aside, now))
    }
}

/// Whether the logs are to be looked after, by the seconds since that was done.
pub fn upkeep_due(since: Option<u64>) -> (r: bool)
    ensures
        r == (since is None || since->0 >= CHECK_SECS),
{
    match since {
        Some(secs) => secs >= CHECK_SECS,
        None => true,
    }
}

// ---------------------------------------------------------------- laws

/// The entries of a log without its first ones are the others, as they were.
proof fn lemma_without_first(l: LogView, k: nat)
    requires
        l.well_formed(),
        k <= l.marks.len(),
    ensures
        without_first(l, k).well_formed(),
        forall|i: int|
            0 <= i < l.marks.len() - k ==> #[trigger] without_first(l, k).entry(i) == l.entry(i + k),
{
    let r = without_first(l, k);
    let cut = l.start(k as int);
    assert(cut <= l.data.len());
    assert forall|i: int| 0 <= i < r.marks.len() implies (#[trigger] r.marks[i]).end
        == l.marks[i + k].end - cut by {
        if k > 0 {
            assert(l.marks[k - 1].end <= l.marks[i + k].end);
        }
    }
    assert forall|i: int| 0 <= i < r.marks.len() implies #[trigger] r.entry(i) == l.entry(i + k) by {
        assert(r.marks[i].end == l.marks[i + k].end - cut);
        assert(r.start(i) == l.start(i + k) - cut) by {
            if i > 0 {
                assert(r.marks[i - 1].end == l.marks[i - 1 + k].end - cut);
            }
        }
        assert(l.start(i + k) <= l.marks[i + k].end) by {
            if i + k > 0 {
                assert(l.marks[i + k - 1].end <= l.marks[i + k].end);
            }
        }
        assert(cut <= l.start(i + k)) by {
            if k > 0 {
                assert(l.marks[k - 1].end <= l.marks[i + k - 1].end);
            }
        }
        assert(r.entry(i) =~= l.entry(i + k));
    }
    assert forall|i: int, j: int| 0 <= i <= j < r.marks.len() implies r.marks[i].end
        <= r.marks[j].end by {
        assert(l.marks[i + k].end <= l.marks[j + k].end);
    }
    if r.marks.len() > 0 {
        assert(r.marks.last() == r.marks[r.marks.len() - 1]);
        assert(l.marks[r.marks.len() - 1 + k] == l.marks.last());
    }
}

/// An entry that is not too old survives in the log without stale entries.
proof fn lemma_recent_stays(l: LogView, now: u64, i: int)
    requires
        l.well_formed(),
        0 <= i < l.marks.len(),
        !is_stale(l.marks[i], now),
    ensures
        without_stale(l, now).holds(l.entry(i), l.marks[i].written),
{
    let k = stale_count(l.marks, now);
    lemma_stale_count(l.marks, now);
    assert(k <= i);
    lemma_without_first(l, k);
    let r = without_stale(l, now);
    assert(r.entry(i - k) == l.entry(i - k + k));
    assert(r.marks[i - k].written == l.marks[i].written);
}

/// No entry that is too old is left, where the clock was not set back.
proof fn lemma_stale_goes(l: LogView, now: u64)
    requires
        l.in_order(),
    ensures
        forall|i: int|
            0 <= i < without_stale(l, now).marks.len() ==> !is_stale(
                #[trigger] without_stale(l, now).marks[i],
                now,
            ),
{
    let k = stale_count(l.marks, now);
    lemma_stale_count(l.marks, now);
    let r = without_stale(l, now);
    assert forall|i: int| 0 <= i < r.marks.len() implies !is_stale(#[trigger] r.marks[i], now) by {
        assert(l.marks[k as int].written <= l.marks[i + k].written);
    }
}

/// An entry of the log that is not older than seven days is still there once the
/// logs have been looked after, in the log or in the one set aside.
pub proof fn law_recent_entries_stay(log: LogView, aside: LogView, now: u64, i: int)
    requires
        log.well_formed(),
        0 <= i < log.marks.len(),
        !is_stale(log.marks[i], now),
    ensures
        ({
            let (l, a) = looked_after(log, aside, now);
            l.holds(log.entry(i), log.marks[i].written) || a.holds(
                log.entry(i),
                log.marks[i].written,
            )
        }),
{
    lemma_recent_stays(log, now, i);
}

/// An entry that was set aside and is not older than seven days stays set aside,
/// until the log is set aside in its place.
pub proof fn law_recent_entries_stay_aside(log: LogView, aside: LogView, now: u64, i: int)
    requires
        aside.well_formed(),
        log.data.len() <= MAX_LOG_SIZE,
        0 <= i < aside.marks.len(),
        !is_stale(aside.marks[i], now),
    ensures
        looked_after(log, aside, now).1.holds(aside.entry(i), aside.marks[i].written),
{
    lemma_recent_stays(aside, now, i);
}

/// Once the logs have been looked after, they hold no entry that is older than
/// seven days, where the clock was not set back.
pub proof fn law_only_recent_entries_are_kept(log: LogView, aside: LogView, now: u64)
    requires
        log.in_order(),
        aside.in_order(),
    ensures
        ({
            let (l, a) = looked_after(log, aside, now);
            &&& forall|i: int| 0 <= i < l.marks.len() ==> !is_stale(#[trigger] l.marks[i], now)
            &&& forall|i: int| 0 <= i < a.marks.len() ==> !is_stale(#[trigger] a.marks[i], now)
        }),
{
    lemma_stale_goes(log, now);
    lemma_stale_goes(aside, now);
}

/// A log that has become too large is set aside, with every entry that is not
/// stale, and a new one begins; one that is not too large is not set aside. The
/// log is never too large afterwards.
pub proof fn law_large_log_is_set_aside(log: LogView, aside: LogView, now: u64)
    requires
        log.well_formed(),
    ensures
        log.data.len() > MAX_LOG_SIZE ==> looked_after(log, aside, now) == (
            LogView::empty(),
            without_stale(log, now),
        ),
        log.data.len() <= MAX_LOG_SIZE ==> looked_after(log, aside, now).0 == without_stale(
            log,
            now,
        ),
        looked_after(log, aside, now).0.data.len() <= MAX_LOG_SIZE,
{
    lemma_stale_count(log.marks, now);
}

/// A log whose entries are all recent stays as it is, unless it is too large.
pub proof fn law_recent_log_is_unchanged(log: LogView, aside: LogView, now: u64)
    requires
        log.well_formed(),
        log.data.len() <= MAX_LOG_SIZE,
        forall|i: int| 0 <= i < log.marks.len() ==> !is_stale(#[trigger] log.marks[i], now),
    ensures
        looked_after(log, aside, now).0 == log,
{
    if log.marks.len() > 0 {
        assert(!is_stale(log.marks[0], now));
    }
    let r = without_stale(log, now);
    assert(r.marks =~= log.marks);
    assert(r.data =~= log.data);
}

/// The log after one more entry.
pub open spec fn with_entry(l: LogView, text: Seq<u8>, written: u64) -> LogView {
    LogView {
        data: l.data + text,
        marks: l.marks.push(Mark { written, end: (l.data.len() + text.len()) as u64 }),
    }
}

/// A new entry is added behind the others, which stay as they are.
pub proof fn law_entry_is_added(l: LogView, text: Seq<u8>, written: u64)
    requires
        l.well_formed(),
        l.data.len() + text.len() <= u64::MAX,
    ensures
        with_entry(l, text, written).well_formed(),
        with_entry(l, text, written).entry(l.marks.len() as int) == text,
        forall|i: int|
            0 <= i < l.marks.len() ==> #[trigger] with_entry(l, text, written).entry(i) == l.entry(i),
{
    let r = with_entry(l, text, written);
    let n = l.marks.len() as int;
    assert(r.start(n) == l.data.len());
    assert(r.entry(n) =~= text);
    assert forall|i: int| 0 <= i < n implies #[trigger] r.entry(i) == l.entry(i) by {
        assert(r.marks[i] == l.marks[i]);
        if i > 0 {
            assert(l.marks[i - 1].end <= l.marks[i].end);
        }
        assert(r.entry(i) =~= l.entry(i));
    }
}

/// An index is read back as the marks that were written.
pub proof fn law_index_roundtrip(marks: Seq<Mark>)
    ensures
        index_of(marks).len() == 16 * marks.len(),
        marks_of(index_of(marks)) == marks,
    decreases marks.len(),
{
    if marks.len() == 0 {
        assert(marks_of(index_of(marks)) =~= marks);
    } else {
        let before = marks.drop_last();
        let m = marks.last();
        law_index_roundtrip(before);
        bytes::lemma_pow256_values();
        bytes::law_be_roundtrip(m.written as nat, 8);
        bytes::law_be_roundtrip(m.end as nat, 8);
        let s = index_of(marks);
        let b = index_of(before);
        let n = before.len() as int;
        assert(s.subrange(16 * n, 16 * n + 8) =~= bytes::be_bytes(m.written as nat, 8));
        assert(s.subrange(16 * n + 8, 16 * n + 16) =~= bytes::be_bytes(m.end as nat, 8));
        assert forall|i: int| 0 <= i < marks.len() implies #[trigger] marks_of(s)[i] == marks[i] by {
            if i < n {
                assert(s.subrange(16 * i, 16 * i + 8) =~= b.subrange(16 * i, 16 * i + 8));
                assert(s.subrange(16 * i + 8, 16 * i + 16) =~= b.subrange(16 * i + 8, 16 * i + 16));
                assert(marks_of(b)[i] == before[i]);
            }
        }
        assert(marks_of(s) =~= marks);
    }
}

/// A mark is added to an index by writing it behind the others.
pub proof fn law_mark_is_added(marks: Seq<Mark>, m: Mark)
    ensures
        index_of(marks.push(m)) == index_of(marks) + index_of(seq![m]),
{
    assert(marks.push(m).drop_last() =~= marks);
    assert(seq![m].drop_last() =~= Seq::<Mark>::empty());
    assert(index_of(Seq::<Mark>::empty()) =~= seq![]);
    assert(index_of(seq![m]) =~= mark_bytes(m));
}

/// A log is found as it was left: with its own index it has the marks that were
/// written.
pub proof fn law_log_is_found_again(l: LogView, modified: u64)
    requires
        l.well_formed(),
    ensures
        dated_view(l.data, index_of(l.marks), modified) == l,
{
    law_index_roundtrip(l.marks);
}

/// An entry is stale once it is more than seven days old, to the second.
pub proof fn law_seven_days(m: Mark, now: u64)
    ensures
        is_stale(m, now) <==> now > m.written + 7 * 24 * 3600,
        MAX_LOG_SIZE == 1024 * 1024,
        CHECK_SECS == 3600,
{
}

/// A log loses exactly the bytes of its first entries that are stale, and keeps
/// the bytes behind them with the times of their entries.
pub proof fn law_stale_bytes_are_cut(l: LogView, now: u64, k: int)
    requires
        l.well_formed(),
        0 <= k <= l.marks.len(),
        forall|i: int| 0 <= i < k ==> now > (#[trigger] l.marks[i]).written + 604_800,
        k < l.marks.len() ==> now <= l.marks[k].written + 604_800,
    ensures
        ({
            let r = without_stale(l, now);
            let cut: int = if k == 0 {
                0
            } else {
                l.marks[k - 1].end as int
            };
            &&& r.data == l.data.subrange(cut, l.data.len() as int)
            &&& r.marks.len() == l.marks.len() - k
            &&& forall|i: int|
                0 <= i < r.marks.len() ==> (#[trigger] r.marks[i]).written == l.marks[i + k].written
                    && r.marks[i].end == l.marks[i + k].end - cut
        }),
{
    let s = stale_count(l.marks, now) as int;
    lemma_stale_count(l.marks, now);
    if s < k {
        assert(is_stale(l.marks[s], now));
    }
    if k < s {
        assert(is_stale(l.marks[k], now));
    }
    let cut = l.start(k);
    let r = without_stale(l, now);
    assert(r.data =~= l.data.subrange(cut, l.data.len() as int));
    assert forall|i: int| 0 <= i < r.marks.len() implies (#[trigger] r.marks[i]).written
        == l.marks[i + k].written && r.marks[i].end == l.marks[i + k].end - cut by {
        if k > 0 {
            assert(l.marks[k - 1].end <= l.marks[i + k].end);
        }
    }
}

/// A log of more than a mebibyte is set aside without its stale bytes and a new
/// one begins; otherwise both logs lose their stale bytes.
pub proof fn law_logs_after_upkeep(log: LogView, aside: LogView, now: u64)
    ensures
        log.data.len() > 0x10_0000 ==> {
            &&& looked_after(log, aside, now).0.data.len() == 0
            &&& looked_after(log, aside, now).0.marks.len() == 0
            &&& looked_after(log, aside, now).1 == without_stale(log, now)
        },
        log.data.len() <= 0x10_0000 ==> looked_after(log, aside, now) == (
            without_stale(log, now),
            without_stale(aside, now),
        ),
{
}

/// A mark in an index is two numbers of eight bytes, most significant first: the
/// time and the end of the entry.
pub proof fn law_index_bytes(index: Seq<u8>, m: Mark, i: int)
    requires
        0 <= i < index.len() / 16,
    ensures
        marks_of(index).len() == index.len() / 16,
        marks_of(index)[i].written == bytes::number8(index, 16 * i),
        marks_of(index)[i].end == bytes::number8(index, 16 * i + 8),
        index_of(seq![m]).len() == 16,
        bytes::number8(index_of(seq![m]), 0) == m.written,
        bytes::number8(index_of(seq![m]), 8) == m.end,
{
    bytes::law_be_value_digits(index, 16 * i);
    bytes::law_be_value_digits(index, 16 * i + 8);
    bytes::lemma_be_value_bound(index.subrange(16 * i, 16 * i + 8));
    bytes::lemma_be_value_bound(index.subrange(16 * i + 8, 16 * i + 16));
    bytes::lemma_pow256_values();
    bytes::law_be_bytes_digits(m.written as nat);
    bytes::law_be_bytes_digits(m.end as nat);
    let a = bytes::be_bytes(m.written as nat, 8);
    let b = bytes::be_bytes(m.end as nat, 8);
    assert(seq![m].drop_last() =~= Seq::<Mark>::empty());
    assert(index_of(Seq::<Mark>::empty()) =~= seq![]);
    assert(index_of(seq![m]) =~= a + b);
    let one = index_of(seq![m]);
    assert(forall|j: int| 0 <= j < 8 ==> one[j] == #[trigger] a[j]);
    assert(forall|j: int| 0 <= j < 8 ==> one[8 + j] == #[trigger] b[j]);
}

/// A log is found with all its bytes. Marks that fit it are used; what they do
/// not cover, and a log whose marks do not fit, has the time of the last write.
pub proof fn law_found_logs(data: Seq<u8>, index: Seq<u8>, modified: u64)
    requires
        data.len() <= u64::MAX,
    ensures
        ({
            let marks = marks_of(index);
            let fit = (forall|i: int, j: int|
                0 <= i <= j < marks.len() ==> marks[i].end <= marks[j].end) && (forall|i: int|
                0 <= i < marks.len() ==> (#[trigger] marks[i]).end <= data.len());
            let r = dated_view(data, index, modified);
            &&& r.data == data
            &&& fit && marks.len() > 0 && marks.last().end == data.len() ==> r.marks == marks
            &&& fit && marks.len() > 0 && marks.last().end < data.len() ==> r.marks == marks.push(
                Mark { written: modified, end: data.len() as u64 },
            )
            &&& !fit && data.len() > 0 ==> r.marks == seq![
                Mark { written: modified, end: data.len() as u64 },
            ]
            &&& marks.len() == 0 && data.len() > 0 ==> r.marks == seq![
                Mark { written: modified, end: data.len() as u64 },
            ]
            &&& marks.len() == 0 && data.len() == 0 ==> r.marks.len() == 0
        }),
{
    let marks = marks_of(index);
    let one = seq![Mark { written: modified, end: data.len() as u64 }];
    assert(Seq::<Mark>::empty().push(one[0]) =~= one);
    if marks.len() == 0 {
        assert(marks =~= Seq::<Mark>::empty());
    }
}

} // verus!
