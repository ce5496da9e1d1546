//! Building the three indices in one pass over the records.

use vstd::prelude::*;
use vstd::string::StringExecFns;
use crate::error::DateError;
use crate::index::{DailyIndexEntry, ProcessedData, TimeIndexEntry, TimeframeSeries};
use crate::runs::{Run, ascending, lemma_runs_ascending, lemma_runs_partition, lemma_runs_push, runs};
use crate::utils::{date_key, date_key_text};

verus! {

/// Seconds of one calendar day.
pub const SECONDS_PER_DAY: u64 = 86_400;

/// The calendar day of a timestamp, counted in days from the epoch.
pub open spec fn day_of(timestamp: u64) -> int {
    timestamp as int / 86_400
}

/// The calendar day of each timestamp of a sequence.
pub open spec fn day_keys(timestamps: Seq<u64>) -> Seq<int> {
    Seq::new(timestamps.len(), |i: int| day_of(timestamps[i]))
}

/// The time index of a timestamp sequence: one entry per record, in order,
/// each with the record's timestamp and its row number.
pub open spec fn time_entries(timestamps: Seq<u64>) -> Seq<TimeIndexEntry> {
    Seq::new(
        timestamps.len(),
        |i: int| TimeIndexEntry { timestamp: timestamps[i], position: i as u64 },
    )
}

/// Whether a daily entry stands for a run of rows: it names the first and
/// the last row of the run, and its date is the day key of the first row.
pub open spec fn daily_entry_matches(entry: DailyIndexEntry, run: Run, timestamps: Seq<u64>)
    -> bool {
    &&& entry.start_position == run.start
    &&& entry.end_position == run.end
    &&& date_key_text(timestamps[run.start]) == Some(entry.date@)
}

/// Whether `daily` is the daily index of a timestamp sequence: one entry per
/// maximal run of neighbouring rows of one calendar day, in order.
pub open spec fn is_daily_index(daily: Seq<DailyIndexEntry>, timestamps: Seq<u64>) -> bool {
    let parts = runs(day_keys(timestamps));
    &&& daily.len() == parts.len()
    &&& forall|k: int|
        0 <= k < daily.len() ==> daily_entry_matches(#[trigger] daily[k], parts[k], timestamps)
}

/// The earliest timestamp of a sequence that is not empty.
pub open spec fn earliest(timestamps: Seq<u64>) -> u64
    decreases timestamps.len(),
{
    if timestamps.len() <= 1 {
        timestamps[0]
    } else {
        let before = earliest(timestamps.drop_last());
        if timestamps.last() < before {
            timestamps.last()
        } else {
            before
        }
    }
}

/// The latest timestamp of a sequence that is not empty.
pub open spec fn latest(timestamps: Seq<u64>) -> u64
    decreases timestamps.len(),
{
    if timestamps.len() <= 1 {
        timestamps[0]
    } else {
        let before = latest(timestamps.drop_last());
        if timestamps.last() > before {
            timestamps.last()
        } else {
            before
        }
    }
}

/// The label of the `k`-th timeframe.
pub open spec fn timeframe_label(k: int) -> Seq<char> {
    if k == 0 {
        "1m"@
    } else if k == 1 {
        "2m"@
    } else if k == 2 {
        "3m"@
    } else if k == 3 {
        "4m"@
    } else if k == 4 {
        "5m"@
    } else {
        "1d"@
    }
}

/// The bucket length of the `k`-th timeframe, in seconds.
pub open spec fn timeframe_seconds(k: int) -> u64 {
    if k == 0 {
        60
    } else if k == 1 {
        120
    } else if k == 2 {
        180
    } else if k == 3 {
        240
    } else if k == 4 {
        300
    } else {
        86_400
    }
}

/// Every bucket start of width `interval` from the bucket of `first` to the
/// bucket of `last`, whether a record falls into the bucket or not.
pub open spec fn boundaries(first: u64, last: u64, interval: u64) -> Seq<u64> {
    let low = first as int / interval as int;
    let high = last as int / interval as int;
    Seq::new((high - low + 1) as nat, |k: int| ((low + k) * interval) as u64)
}

/// Whether `series` is the timeframe index of a timestamp sequence: nothing
/// for no record; otherwise the six timeframes in their order, each with
/// every bucket start between the earliest and the latest timestamp.
pub open spec fn is_timeframe_index(series: Seq<TimeframeSeries>, timestamps: Seq<u64>) -> bool {
    if timestamps.len() == 0 {
        series.len() == 0
    } else {
        &&& series.len() == 6
        &&& forall|k: int|
            0 <= k < 6 ==> (#[trigger] series[k]).label@ == timeframe_label(k)
                && series[k].boundaries@ == boundaries(
                earliest(timestamps),
                latest(timestamps),
                timeframe_seconds(k),
            )
    }
}

/// No two timeframes share a label, so a timeframe index holds each label once.
pub proof fn lemma_timeframe_labels_distinct(j: int, k: int)
    requires
        0 <= j < k < 6,
    ensures
        timeframe_label(j) != timeframe_label(k),
{
    reveal_strlit("1m");
    reveal_strlit("2m");
    reveal_strlit("3m");
    reveal_strlit("4m");
    reveal_strlit("5m");
    reveal_strlit("1d");
    let a = timeframe_label(j);
    let b = timeframe_label(k);
    assert(a.len() == 2 && b.len() == 2);
    assert(a[0] != b[0] || a[1] != b[1]);
}

/// The place of the first series under a label, if there is one.
pub open spec fn series_place(series: Seq<TimeframeSeries>, label: Seq<char>) -> Option<int>
    decreases series.len(),
{
    if series.len() == 0 {
        None
    } else {
        match series_place(series.drop_last(), label) {
            Some(k) => Some(k),
            None => if series.last().label@ == label {
                Some(series.len() - 1)
            } else {
                None
            },
        }
    }
}

/// Looks a label up in a timeframe index: the bucket starts kept under it,
/// or nothing where the index has no such label.
pub fn timeframe_boundaries<'a>(series: &'a [TimeframeSeries], label: &str) -> (r: Option<
    &'a Vec<u64>,
>)
    ensures
        match r {
            Some(found) => series_place(series@, label@) matches Some(k) && 0 <= k < series@.len()
                && *found == series@[k].boundaries,
            None => series_place(series@, label@).is_none(),
        },
{
    let wanted = String::from_str(label);
    let mut k: usize = 0;
    assert(series@.take(0) =~= Seq::empty());
    while k < series.len()
        invariant
            k <= series@.len(),
            wanted@ == label@,
            series_place(series@.take(k as int), label@).is_none(),
        decreases series@.len() - k,
    {
        proof {
            assert(series@.take(k + 1).drop_last() =~= series@.take(k as int));
            assert(series@.take(k + 1).last() == series@[k as int]);
        }
        if series[k].label == wanted {
            proof {
                lemma_series_place_stays(series@, label@, k + 1);
            }
            return Some(&series[k].boundaries);
        }
        k += 1;
    }
    assert(series@.take(series@.len() as int) =~= series@);
    None
}

/// A label found among the first series of an index is found at the same
/// place in the whole index.
pub proof fn lemma_series_place_stays(series: Seq<TimeframeSeries>, label: Seq<char>, len: int)
    requires
        0 <= len <= series.len(),
        series_place(series.take(len), label).is_some(),
    ensures
        series_place(series, label) == series_place(series.take(len), label),
    decreases series.len() - len,
{
    if len == series.len() {
        assert(series.take(len) =~= series);
    } else {
        assert(series.drop_last().take(len) =~= series.take(len));
        lemma_series_place_stays(series.drop_last(), label, len);
    }
}

/// The earliest timestamp is one of the sequence and none lies before it;
/// the latest is one of the sequence and none lies behind it.
pub proof fn lemma_earliest_latest(timestamps: Seq<u64>)
    requires
        timestamps.len() > 0,
    ensures
        forall|i: int| 0 <= i < timestamps.len() ==> earliest(timestamps) <= timestamps[i],
        exists|i: int| 0 <= i < timestamps.len() && earliest(timestamps) == timestamps[i],
        forall|i: int| 0 <= i < timestamps.len() ==> latest(timestamps) >= timestamps[i],
        exists|i: int| 0 <= i < timestamps.len() && latest(timestamps) == timestamps[i],
    decreases timestamps.len(),
{
    let n = timestamps.len() as int;
    if n > 1 {
        let front = timestamps.drop_last();
        lemma_earliest_latest(front);
        let lo = choose|i: int| 0 <= i < front.len() && earliest(front) == front[i];
        let hi = choose|i: int| 0 <= i < front.len() && latest(front) == front[i];
        assert(front[lo] == timestamps[lo] && front[hi] == timestamps[hi]);
        assert forall|i: int| 0 <= i < n implies earliest(timestamps) <= timestamps[i] by {
            if i < n - 1 {
                assert(front[i] == timestamps[i]);
            }
        }
        assert forall|i: int| 0 <= i < n implies latest(timestamps) >= timestamps[i] by {
            if i < n - 1 {
                assert(front[i] == timestamps[i]);
            }
        }
        if earliest(timestamps) == timestamps[n - 1] {
            assert(0 <= n - 1 < n && earliest(timestamps) == timestamps[n - 1]);
        } else {
            assert(0 <= lo < n && earliest(timestamps) == timestamps[lo]);
        }
        if latest(timestamps) == timestamps[n - 1] {
            assert(0 <= n - 1 < n && latest(timestamps) == timestamps[n - 1]);
        } else {
            assert(0 <= hi < n && latest(timestamps) == timestamps[hi]);
        }
    } else {
        assert(0 <= 0 < n && earliest(timestamps) == timestamps[0]);
        assert(0 <= 0 < n && latest(timestamps) == timestamps[0]);
    }
}

/// Exhaustive coverage: the bucket starts of a timeframe begin at the bucket
/// of the first timestamp, end at the bucket of the last, rise by the bucket
/// length from one to the next, and are all multiples of it.
pub proof fn lemma_boundaries_cover(first: u64, last: u64, interval: u64)
    requires
        interval > 0,
        first <= last,
    ensures
        boundaries(first, last, interval).len() == last as int / interval as int - first as int
            / interval as int + 1,
        boundaries(first, last, interval)[0] == (first as int / interval as int) * interval,
        boundaries(first, last, interval).last() == (last as int / interval as int) * interval,
        boundaries(first, last, interval)[0] <= first < boundaries(first, last, interval)[0]
            + interval,
        boundaries(first, last, interval).last() <= last < boundaries(
            first,
            last,
            interval,
        ).last() + interval,
        forall|k: int|
            0 <= k < boundaries(first, last, interval).len() - 1 ==> #[trigger] boundaries(
                first,
                last,
                interval,
            )[k + 1] == boundaries(first, last, interval)[k] + interval,
        forall|k: int|
            0 <= k < boundaries(first, last, interval).len() ==> (#[trigger] boundaries(
                first,
                last,
                interval,
            )[k]) as int % interval as int == 0,
{
    let low = first as int / interval as int;
    let high = last as int / interval as int;
    let step = interval as int;
    assert(0 <= low <= high && low * step <= first < low * step + step && high * step <= last
        < high * step + step) by (nonlinear_arith)
        requires
            low == first as int / step,
            high == last as int / step,
            step > 0,
            0 <= first <= last,
    ;
    assert forall|k: int| 0 <= k <= high - low implies 0 <= #[trigger] ((low + k) * step)
        <= last && ((low + k) * step) % step == 0 && (low + k + 1) * step == (low + k) * step
        + step by {
        assert(0 <= (low + k) * step <= high * step && ((low + k) * step) % step == 0 && (low + k
            + 1) * step == (low + k) * step + step) by (nonlinear_arith)
            requires
                0 <= low,
                0 <= k <= high - low,
                step > 0,
        ;
    }
    let b = boundaries(first, last, interval);
    assert(b[0] == ((low + 0) * step) as u64);
    assert(b.last() == ((low + (high - low)) * step) as u64);
    assert forall|k: int| 0 <= k < b.len() - 1 implies #[trigger] b[k + 1] == b[k] + interval by {
        assert(b[k] == ((low + k) * step) as u64);
        assert(b[k + 1] == ((low + (k + 1)) * step) as u64);
        assert(0 <= (low + k) * step <= last);
        assert(0 <= (low + (k + 1)) * step <= last);
    }
    assert forall|k: int| 0 <= k < b.len() implies (#[trigger] b[k]) as int % interval as int
        == 0 by {
        assert(b[k] == ((low + k) * step) as u64);
        assert(0 <= (low + k) * step <= last);
    }
}

/// Exhaustive timeframe coverage: in the timeframe index of a dataset that is
/// not empty, the bucket starts of each timeframe rise by the bucket length
/// from the bucket of the earliest timestamp to the bucket of the latest,
/// with no gap, and every record falls into one of the buckets listed.
pub proof fn lemma_timeframe_coverage(series: Seq<TimeframeSeries>, timestamps: Seq<u64>, k: int)
    requires
        timestamps.len() > 0,
        is_timeframe_index(series, timestamps),
        0 <= k < 6,
    ensures
        ({
            let starts = series[k].boundaries@;
            let step = timeframe_seconds(k) as int;
            &&& starts.len() > 0
            &&& starts[0] == (earliest(timestamps) as int / step) * step
            &&& starts.last() == (latest(timestamps) as int / step) * step
            &&& forall|j: int|
                0 <= j < starts.len() - 1 ==> #[trigger] starts[j + 1] == starts[j] + step
            &&& forall|i: int|
                0 <= i < timestamps.len() ==> starts[0] <= #[trigger] timestamps[i]
                    < starts.last() + step
        }),
{
    let first = earliest(timestamps);
    let last = latest(timestamps);
    lemma_earliest_latest(timestamps);
    assert(first <= timestamps[0] <= last);
    let interval = timeframe_seconds(k);
    let starts = boundaries(first, last, interval);
    lemma_boundaries_cover(first, last, interval);
    assert(series[k].boundaries@ == starts);
    assert(starts.len() > 0);
    assert(starts[0] == (first as int / interval as int) * interval);
    assert(starts.last() == (last as int / interval as int) * interval);
    assert forall|j: int| 0 <= j < starts.len() - 1 implies #[trigger] starts[j + 1] == starts[j]
        + interval by {}
    assert forall|i: int| 0 <= i < timestamps.len() implies starts[0] <= #[trigger] timestamps[i]
        < starts.last() + interval by {
        assert(first <= timestamps[i] <= last);
    }
}

/// Every bucket start of width `interval` from the bucket of `first` to the
/// bucket of `last`.
pub fn bucket_boundaries(first: u64, last: u64, interval: u64) -> (out: Vec<u64>)
    requires
        interval > 0,
        first <= last,
    ensures
        out@ == boundaries(first, last, interval),
{
    let low = first / interval;
    let high = last / interval;
    let ghost step = interval as int;
    proof {
        assert(0 <= low <= high && high * step <= last) by (nonlinear_arith)
            requires
                low == first as int / step,
                high == last as int / step,
                step > 0,
                0 <= first <= last,
        ;
    }
    let mut out: Vec<u64> = Vec::new();
    let mut q = low;
    while q < high
        invariant
            interval > 0,
            step == interval as int,
            low <= q <= high,
            high * step <= last,
            out@ == Seq::new((q - low) as nat, |k: int| ((low + k) * step) as u64),
        decreases high - q,
    {
        assert(0 <= q * step <= high * step) by (nonlinear_arith)
            requires
                0 <= q <= high,
                step > 0,
        ;
        out.push(q * interval);
        q += 1;
        assert(out@ =~= Seq::new((q - low) as nat, |k: int| ((low + k) * step) as u64));
    }
    out.push(high * interval);
    assert(out@ =~= boundaries(first, last, interval));
    out
}

/// Daily partition: the entries of a daily index follow each other without gap
/// or overlap from row `0` to the last row, each from a first row to a last
/// row not before it; the rows of one entry are of one calendar day, and the
/// rows on the two sides of a cut are not.
pub proof fn lemma_daily_partition(daily: Seq<DailyIndexEntry>, timestamps: Seq<u64>)
    requires
        is_daily_index(daily, timestamps),
    ensures
        daily.len() == 0 <==> timestamps.len() == 0,
        daily.len() > 0 ==> daily[0].start_position == 0 && daily.last().end_position
            == timestamps.len() - 1,
        forall|k: int|
            0 <= k < daily.len() ==> (#[trigger] daily[k]).start_position <= daily[k].end_position
                < timestamps.len(),
        forall|k: int|
            0 <= k < daily.len() - 1 ==> (#[trigger] daily[k + 1]).start_position
                == daily[k].end_position + 1,
        forall|k: int, i: int|
            0 <= k < daily.len() && daily[k].start_position <= i <= daily[k].end_position
                ==> day_of(#[trigger] timestamps[i]) == day_of(
                timestamps[(#[trigger] daily[k]).start_position as int],
            ),
        forall|k: int|
            0 <= k < daily.len() - 1 ==> day_of(timestamps[daily[k].end_position as int])
                != day_of(timestamps[(#[trigger] daily[k + 1]).start_position as int]),
{
    let keys = day_keys(timestamps);
    let parts = runs(keys);
    lemma_runs_partition(keys);
    assert forall|k: int| 0 <= k < daily.len() implies (#[trigger] daily[k]).start_position
        == parts[k].start && daily[k].end_position == parts[k].end by {
        assert(daily_entry_matches(daily[k], parts[k], timestamps));
    }
    assert forall|k: int| 0 <= k < daily.len() - 1 implies (#[trigger] daily[k
        + 1]).start_position == daily[k].end_position + 1 by {
        assert(parts[k + 1].start == parts[k].end + 1);
        assert(daily[k].end_position == parts[k].end);
    }
    assert forall|k: int, i: int|
        0 <= k < daily.len() && daily[k].start_position <= i
            <= daily[k].end_position implies day_of(#[trigger] timestamps[i]) == day_of(
        timestamps[(#[trigger] daily[k]).start_position as int],
    ) by {
        assert(keys[i] == keys[parts[k].start]);
    }
    assert forall|k: int| 0 <= k < daily.len() - 1 implies day_of(
        timestamps[daily[k].end_position as int],
    ) != day_of(timestamps[(#[trigger] daily[k + 1]).start_position as int]) by {
        assert(keys[parts[k].end] != keys[parts[k + 1].start]);
        assert(daily[k].end_position == parts[k].end);
    }
}

/// Whether the timestamps never fall from one row to the next.
pub open spec fn in_time_order(timestamps: Seq<u64>) -> bool {
    forall|i: int, j: int| 0 <= i <= j < timestamps.len() ==> timestamps[i] <= timestamps[j]
}

/// Over rows in time order the entries of a daily index come in the order of
/// their days, each day later than the one before it: no calendar day has two
/// entries.
pub proof fn lemma_daily_order(daily: Seq<DailyIndexEntry>, timestamps: Seq<u64>, k: int, m: int)
    requires
        is_daily_index(daily, timestamps),
        in_time_order(timestamps),
        0 <= k < m < daily.len(),
    ensures
        day_of(timestamps[daily[k].start_position as int]) < day_of(
            timestamps[daily[m].start_position as int],
        ),
{
    let keys = day_keys(timestamps);
    let parts = runs(keys);
    lemma_runs_partition(keys);
    assert(daily_entry_matches(daily[k], parts[k], timestamps));
    assert(daily_entry_matches(daily[m], parts[m], timestamps));
    assert(ascending(keys)) by {
        assert forall|i: int, j: int| 0 <= i <= j < keys.len() implies keys[i] <= keys[j] by {
            assert(timestamps[i] <= timestamps[j]);
        }
    }
    lemma_runs_ascending(keys, k, m);
}

/// Whether a record with this timestamp, coming behind the records seen so
/// far, begins a new calendar day: it is the first record, or its day is not
/// the day of the record before it.
pub open spec fn opens_day(seen: Seq<u64>, timestamp: u64) -> bool {
    seen.len() == 0 || day_of(seen.last()) != day_of(timestamp)
}

/// Whether a record with this timestamp begins a day that the calendar
/// cannot name. Such a record is refused.
pub open spec fn opens_unnamed_day(seen: Seq<u64>, timestamp: u64) -> bool {
    opens_day(seen, timestamp) && date_key_text(timestamp).is_none()
}

/// The state of one streaming pass over the records of a dataset. Each
/// record is folded in with `push`; `finish` closes the day that is still
/// open and hands out the three indices.
pub struct IndexBuilder {
    time_index: Vec<TimeIndexEntry>,
    daily_index: Vec<DailyIndexEntry>,
    current_day: Option<String>,
    day_start: u64,
    last_ts: u64,
    min_ts: u64,
    max_ts: u64,
}

impl IndexBuilder {
    /// The timestamps of the records folded in so far, in order.
    pub closed spec fn seen(&self) -> Seq<u64> {
        Seq::new(self.time_index@.len(), |i: int| self.time_index@[i].timestamp)
    }

    /// The state agrees with the records seen: the time index lists them,
    /// the daily index holds every day but the one still open, and the open
    /// day, the earliest and the latest timestamp are those of the records.
    pub closed spec fn wf(&self) -> bool {
        let seen = self.seen();
        let parts = runs(day_keys(seen));
        &&& self.time_index@ == time_entries(seen)
        &&& seen.len() == 0 ==> self.current_day.is_none() && self.daily_index@.len() == 0
        &&& seen.len() > 0 ==> {
            &&& parts.len() == self.daily_index@.len() + 1
            &&& self.day_start == parts.last().start
            &&& self.current_day matches Some(day) && date_key_text(seen[parts.last().start])
                == Some(day@)
            &&& self.last_ts == seen.last()
            &&& self.min_ts == earliest(seen)
            &&& self.max_ts == latest(seen)
            &&& self.min_ts <= self.max_ts
        }
        &&& forall|k: int|
            0 <= k < self.daily_index@.len() ==> daily_entry_matches(
                #[trigger] self.daily_index@[k],
                parts[k],
                seen,
            )
    }

    /// A pass that has seen no record.
    pub fn new() -> (b: IndexBuilder)
        ensures
            b.wf(),
            b.seen() == Seq::<u64>::empty(),
    {
        let b = IndexBuilder {
            time_index: Vec::new(),
            daily_index: Vec::new(),
            current_day: None,
            day_start: 0,
            last_ts: 0,
            min_ts: 0,
            max_ts: 0,
        };
        assert(b.seen() =~= Seq::<u64>::empty());
        assert(b.time_index@ =~= time_entries(b.seen()));
        b
    }

    /// The number of records folded in so far.
    pub fn count(&self) -> (n: usize)
        ensures
            n == self.seen().len(),
    {
        self.time_index.len()
    }

    /// Folds in the next record. Its row number is the count of the records
    /// before it. Where its calendar day is not that of the record before it,
    /// the day before is closed and a new day is opened under its date key. A
    /// record that opens a day without a name is refused, and the pass stays
    /// as it was.
    pub fn push(&mut self, timestamp: u64) -> (r: Result<(), DateError>)
        requires
            old(self).wf(),
        ensures
            final(self).wf(),
            match r {
                Ok(_) => {
                    &&& !opens_unnamed_day(old(self).seen(), timestamp)
                    &&& final(self).seen() == old(self).seen().push(timestamp)
                },
                Err(e) => {
                    &&& e == DateError::OutOfRange
                    &&& opens_unnamed_day(old(self).seen(), timestamp)
                    &&& final(self).seen() == old(self).seen()
                },
            },
    {
        let ghost seen = self.seen();
        let ghost keys = day_keys(seen);
        let ghost parts = runs(keys);
        let ghost grown = seen.push(timestamp);
        let ghost after = runs(day_keys(grown));
        proof {
            assert(day_keys(grown) =~= keys.push(day_of(timestamp)));
            lemma_runs_push(keys, day_of(timestamp));
            lemma_runs_partition(keys);
        }
        let position = self.time_index.len() as u64;
        let opens = self.current_day.is_none() || self.last_ts / SECONDS_PER_DAY != timestamp
            / SECONDS_PER_DAY;
        if opens {
            let label = match date_key(timestamp) {
                Ok(label) => label,
                Err(e) => {
                    return Err(e);
                },
            };
            if let Some(day) = self.current_day.take() {
                self.daily_index.push(
                    DailyIndexEntry {
                        date: day,
                        start_position: self.day_start,
                        end_position: position - 1,
                    },
                );
            }
            self.current_day = Some(label);
            self.day_start = position;
        }
        if position == 0 || timestamp < self.min_ts {
            self.min_ts = timestamp;
        }
        if position == 0 || timestamp > self.max_ts {
            self.max_ts = timestamp;
        }
        self.last_ts = timestamp;
        self.time_index.push(TimeIndexEntry { timestamp, position });
        proof {
            assert(self.seen() =~= grown);
            assert(self.time_index@ =~= time_entries(grown));
            assert(grown.drop_last() =~= seen);
            assert forall|k: int| 0 <= k < self.daily_index@.len() implies daily_entry_matches(
                #[trigger] self.daily_index@[k],
                after[k],
                grown,
            ) by {
                if k < old(self).daily_index@.len() {
                    assert(self.daily_index@[k] == old(self).daily_index@[k]);
                    assert(after[k] == parts[k]);
                    assert(grown[parts[k].start] == seen[parts[k].start]);
                } else {
                    assert(after[k] == parts.last());
                    assert(grown[parts.last().start] == seen[parts.last().start]);
                }
            }
            if seen.len() > 0 {
                assert(grown[after.last().start] == if opens {
                    timestamp
                } else {
                    seen[parts.last().start]
                });
            }
        }
        Ok(())
    }

    /// Ends the pass: closes the day that is still open and lists, for each
    /// timeframe, every bucket start between the earliest and the latest
    /// timestamp. A pass that saw no record gives three empty indices.
    pub fn finish(self) -> (data: ProcessedData)
        requires
            self.wf(),
        ensures
            data.time_index@ == time_entries(self.seen()),
            is_daily_index(data.daily_index@, self.seen()),
            is_timeframe_index(data.timeframe_index@, self.seen()),
    {
        let ghost seen = self.seen();
        let ghost parts = runs(day_keys(seen));
        proof {
            lemma_runs_partition(day_keys(seen));
        }
        let count = self.time_index.len();
        let IndexBuilder { time_index, mut daily_index, current_day, day_start, min_ts, max_ts, .. } =
            self;
        let mut timeframe_index: Vec<TimeframeSeries> = Vec::new();
        if let Some(day) = current_day {
            daily_index.push(
                DailyIndexEntry {
                    date: day,
                    start_position: day_start,
                    end_position: (count - 1) as u64,
                },
            );
            timeframe_index.push(
                TimeframeSeries {
                    label: String::from_str("1m"),
                    boundaries: bucket_boundaries(min_ts, max_ts, 60),
                },
            );
            timeframe_index.push(
                TimeframeSeries {
                    label: String::from_str("2m"),
                    boundaries: bucket_boundaries(min_ts, max_ts, 120),
                },
            );
            timeframe_index.push(
                TimeframeSeries {
                    label: String::from_str("3m"),
                    boundaries: bucket_boundaries(min_ts, max_ts, 180),
                },
            );
            timeframe_index.push(
                TimeframeSeries {
                    label: String::from_str("4m"),
                    boundaries: bucket_boundaries(min_ts, max_ts, 240),
                },
            );
            timeframe_index.push(
                TimeframeSeries {
                    label: String::from_str("5m"),
                    boundaries: bucket_boundaries(min_ts, max_ts, 300),
                },
            );
            timeframe_index.push(
                TimeframeSeries {
                    label: String::from_str("1d"),
                    boundaries: bucket_boundaries(min_ts, max_ts, SECONDS_PER_DAY),
                },
            );
        }
        ProcessedData { time_index, daily_index, timeframe_index }
    }
}

} // verus!
