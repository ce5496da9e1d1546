//! Writing a record sequence as a storage buffer.

use vstd::prelude::*;
use vstd::bytes::{spec_u64_to_le_bytes, u64_to_le_bytes};
use crate::price::Price;
use crate::record::{ProcessedRecord, record_words};
use crate::layout::{
    Layout, column_words, encoding, lemma_words_bytes_push, root_tag, stored_words, words_bytes,
};

verus! {

/// Appends the eight little-endian bytes of one word.
fn put_word(buf: &mut Vec<u8>, x: u64)
    ensures
        final(buf)@ == old(buf)@ + spec_u64_to_le_bytes(x),
{
    let mut bytes = u64_to_le_bytes(x);
    buf.append(&mut bytes);
}

/// Starts a buffer: the root tag of the layout, then the record count.
fn put_header(buf: &mut Vec<u8>, layout: Layout, count: u64)
    requires
        old(buf)@.len() == 0,
    ensures
        final(buf)@ == root_tag(layout) + spec_u64_to_le_bytes(count) + words_bytes(Seq::empty()),
{
    buf.push(0x4f);
    buf.push(0x48);
    buf.push(0x4c);
    buf.push(0x43);
    buf.push(0x56);
    match layout {
        Layout::RowOriented => {
            buf.push(0x41);
            buf.push(0x4f);
            buf.push(0x53);
        },
        Layout::ColumnOriented => {
            buf.push(0x53);
            buf.push(0x4f);
            buf.push(0x41);
        },
    }
    assert(buf@ =~= root_tag(layout));
    put_word(buf, count);
    assert(buf@ =~= root_tag(layout) + spec_u64_to_le_bytes(count) + words_bytes(Seq::empty()));
}

/// Writes a record sequence as one row-oriented buffer: after the header,
/// record after record, the six fields of each side by side.
pub fn encode_rows(records: &Vec<ProcessedRecord>) -> (buf: Vec<u8>)
    ensures
        buf@ == encoding(records@, Layout::RowOriented),
{
    let n = records.len();
    let mut buf: Vec<u8> = Vec::new();
    put_header(&mut buf, Layout::RowOriented, n as u64);
    let ghost head = root_tag(Layout::RowOriented) + spec_u64_to_le_bytes(n as u64);
    let ghost all = stored_words(records@, Layout::RowOriented);
    let ghost mut done: Seq<u64> = Seq::empty();
    let mut i: usize = 0;
    while i < n
        invariant
            n == records.len(),
            i <= n,
            all == stored_words(records@, Layout::RowOriented),
            done == all.take(6 * i),
            buf@ == head + words_bytes(done),
        decreases n - i,
    {
        let r = records[i];
        proof {
            assert forall|f: int| 0 <= f < 6 implies all[6 * i + f] == #[trigger] record_words(
                r,
            )[f] by {
                assert((6 * i + f) / 6 == i && (6 * i + f) % 6 == f);
            }
        }
        put_word(&mut buf, r.timestamp);
        proof {
            lemma_words_bytes_push(done, r.timestamp);
            assert(done.push(r.timestamp) =~= all.take(6 * i + 1)) by {
                assert(all[6 * i + 0] == record_words(r)[0]);
            }
            done = done.push(r.timestamp);
        }
        put_word(&mut buf, r.open.bits);
        proof {
            lemma_words_bytes_push(done, r.open.bits);
            assert(done.push(r.open.bits) =~= all.take(6 * i + 2)) by {
                assert(all[6 * i + 1] == record_words(r)[1]);
            }
            done = done.push(r.open.bits);
        }
        put_word(&mut buf, r.high.bits);
        proof {
            lemma_words_bytes_push(done, r.high.bits);
            assert(done.push(r.high.bits) =~= all.take(6 * i + 3)) by {
                assert(all[6 * i + 2] == record_words(r)[2]);
            }
            done = done.push(r.high.bits);
        }
        put_word(&mut buf, r.low.bits);
        proof {
            lemma_words_bytes_push(done, r.low.bits);
            assert(done.push(r.low.bits) =~= all.take(6 * i + 4)) by {
                assert(all[6 * i + 3] == record_words(r)[3]);
            }
            done = done.push(r.low.bits);
        }
        put_word(&mut buf, r.close.bits);
        proof {
            lemma_words_bytes_push(done, r.close.bits);
            assert(done.push(r.close.bits) =~= all.take(6 * i + 5)) by {
                assert(all[6 * i + 4] == record_words(r)[4]);
            }
            done = done.push(r.close.bits);
        }
        put_word(&mut buf, r.volume);
        proof {
            lemma_words_bytes_push(done, r.volume);
            assert(done.push(r.volume) =~= all.take(6 * i + 6)) by {
                assert(all[6 * i + 5] == record_words(r)[5]);
            }
            done = done.push(r.volume);
        }
        assert(buf@ =~= head + words_bytes(done));
        i += 1;
    }
    assert(done =~= all);
    buf
}

/// The bit patterns of a run of prices.
pub open spec fn price_bits(prices: Seq<Price>) -> Seq<u64> {
    Seq::new(prices.len(), |i: int| prices[i].bits)
}

/// The bytes of two runs of words, one after the other, are the bytes of the
/// joined run.
pub proof fn lemma_words_bytes_concat(a: Seq<u64>, b: Seq<u64>)
    ensures
        words_bytes(a + b) == words_bytes(a) + words_bytes(b),
    decreases b.len(),
{
    if b.len() == 0 {
        assert(a + b =~= a);
        assert(words_bytes(a) + words_bytes(b) =~= words_bytes(a));
    } else {
        lemma_words_bytes_concat(a, b.drop_last());
        assert((a + b).drop_last() =~= a + b.drop_last());
        assert((a + b).last() == b.last());
        assert(words_bytes(a + b) =~= words_bytes(a) + words_bytes(b));
    }
}

/// Appends a column of plain words.
fn put_words(buf: &mut Vec<u8>, column: &Vec<u64>)
    ensures
        final(buf)@ == old(buf)@ + words_bytes(column@),
{
    let n = column.len();
    let mut i: usize = 0;
    assert(buf@ =~= old(buf)@ + words_bytes(column@.take(0)));
    while i < n
        invariant
            n == column.len(),
            i <= n,
            buf@ == old(buf)@ + words_bytes(column@.take(i as int)),
        decreases n - i,
    {
        put_word(buf, column[i]);
        proof {
            lemma_words_bytes_push(column@.take(i as int), column[i as int]);
            assert(column@.take(i as int).push(column[i as int]) =~= column@.take(i + 1));
            assert(buf@ =~= old(buf)@ + words_bytes(column@.take(i + 1)));
        }
        i += 1;
    }
    assert(column@.take(n as int) =~= column@);
}

/// Appends a column of prices, each as its bit pattern.
fn put_prices(buf: &mut Vec<u8>, column: &Vec<Price>)
    ensures
        final(buf)@ == old(buf)@ + words_bytes(price_bits(column@)),
{
    let n = column.len();
    let ghost bits = price_bits(column@);
    let mut i: usize = 0;
    assert(buf@ =~= old(buf)@ + words_bytes(bits.take(0)));
    while i < n
        invariant
            n == column.len(),
            i <= n,
            bits == price_bits(column@),
            buf@ == old(buf)@ + words_bytes(bits.take(i as int)),
        decreases n - i,
    {
        put_word(buf, column[i].bits);
        proof {
            lemma_words_bytes_push(bits.take(i as int), bits[i as int]);
            assert(bits.take(i as int).push(bits[i as int]) =~= bits.take(i + 1));
            assert(buf@ =~= old(buf)@ + words_bytes(bits.take(i + 1)));
        }
        i += 1;
    }
    assert(bits.take(n as int) =~= bits);
}

/// Collects records field by field, one growing array per field, and writes
/// them out as one column-oriented buffer.
pub struct SOABuilder {
    timestamps: Vec<u64>,
    opens: Vec<Price>,
    highs: Vec<Price>,
    lows: Vec<Price>,
    closes: Vec<Price>,
    volumes: Vec<u64>,
}

impl View for SOABuilder {
    type V = Seq<ProcessedRecord>;

    /// The records added so far, in the order in which they were added.
    closed spec fn view(&self) -> Seq<ProcessedRecord> {
        Seq::new(
            self.timestamps@.len(),
            |i: int|
                ProcessedRecord {
                    timestamp: self.timestamps@[i],
                    open: self.opens@[i],
                    high: self.highs@[i],
                    low: self.lows@[i],
                    close: self.closes@[i],
                    volume: self.volumes@[i],
                },
        )
    }
}

impl SOABuilder {
    /// Every field array holds one entry per record. `new` gives such a
    /// builder and `add_ohlcv` keeps it so.
    pub closed spec fn wf(self) -> bool {
        &&& self.opens@.len() == self.timestamps@.len()
        &&& self.highs@.len() == self.timestamps@.len()
        &&& self.lows@.len() == self.timestamps@.len()
        &&& self.closes@.len() == self.timestamps@.len()
        &&& self.volumes@.len() == self.timestamps@.len()
    }

    /// A builder that holds no record.
    pub fn new() -> (b: SOABuilder)
        ensures
            b.wf(),
            b@ == Seq::<ProcessedRecord>::empty(),
    {
        let b = SOABuilder {
            timestamps: Vec::new(),
            opens: Vec::new(),
            highs: Vec::new(),
            lows: Vec::new(),
            closes: Vec::new(),
            volumes: Vec::new(),
        };
        assert(b@ =~= Seq::<ProcessedRecord>::empty());
        b
    }

    /// Adds one record behind those already held.
    pub fn add_ohlcv(
        &mut self,
        timestamp: u64,
        open: Price,
        high: Price,
        low: Price,
        close: Price,
        volume: u64,
    )
        requires
            old(self).wf(),
        ensures
            final(self).wf(),
            final(self)@ == old(self)@.push(
                ProcessedRecord { timestamp, open, high, low, close, volume },
            ),
    {
        self.timestamps.push(timestamp);
        self.opens.push(open);
        self.highs.push(high);
        self.lows.push(low);
        self.closes.push(close);
        self.volumes.push(volume);
        assert(self@ =~= old(self)@.push(
            ProcessedRecord { timestamp, open, high, low, close, volume },
        ));
    }

    /// Writes the records held as one column-oriented buffer: after the
    /// header the timestamps, then the opens, highs, lows, closes and volumes,
    /// each array in record order.
    pub fn finish_buffer(self) -> (buf: Vec<u8>)
        requires
            self.wf(),
        ensures
            buf@ == encoding(self@, Layout::ColumnOriented),
    {
        let n = self.timestamps.len();
        let mut buf: Vec<u8> = Vec::new();
        put_header(&mut buf, Layout::ColumnOriented, n as u64);
        let ghost head = root_tag(Layout::ColumnOriented) + spec_u64_to_le_bytes(n as u64);
        let ghost c0 = column_words(self@, 0);
        let ghost c1 = column_words(self@, 1);
        let ghost c2 = column_words(self@, 2);
        let ghost c3 = column_words(self@, 3);
        let ghost c4 = column_words(self@, 4);
        let ghost c5 = column_words(self@, 5);
        proof {
            assert(c0 =~= self.timestamps@);
            assert(c1 =~= price_bits(self.opens@));
            assert(c2 =~= price_bits(self.highs@));
            assert(c3 =~= price_bits(self.lows@));
            assert(c4 =~= price_bits(self.closes@));
            assert(c5 =~= self.volumes@);
            lemma_words_bytes_concat(c0, c1);
            lemma_words_bytes_concat(c0 + c1, c2);
            lemma_words_bytes_concat(c0 + c1 + c2, c3);
            lemma_words_bytes_concat(c0 + c1 + c2 + c3, c4);
            lemma_words_bytes_concat(c0 + c1 + c2 + c3 + c4, c5);
        }
        put_words(&mut buf, &self.timestamps);
        put_prices(&mut buf, &self.opens);
        put_prices(&mut buf, &self.highs);
        put_prices(&mut buf, &self.lows);
        put_prices(&mut buf, &self.closes);
        put_words(&mut buf, &self.volumes);
        assert(buf@ =~= head + (words_bytes(c0) + words_bytes(c1) + words_bytes(c2) + words_bytes(
            c3,
        ) + words_bytes(c4) + words_bytes(c5)));
        buf
    }
}

/// Writes a record sequence as one column-oriented buffer.
pub fn encode_columns(records: &Vec<ProcessedRecord>) -> (buf: Vec<u8>)
    ensures
        buf@ == encoding(records@, Layout::ColumnOriented),
{
    let n = records.len();
    let mut builder = SOABuilder::new();
    let mut i: usize = 0;
    while i < n
        invariant
            n == records.len(),
            i <= n,
            builder.wf(),
            builder@ == records@.take(i as int),
        decreases n - i,
    {
        let r = records[i];
        builder.add_ohlcv(r.timestamp, r.open, r.high, r.low, r.close, r.volume);
        assert(builder@ =~= records@.take(i + 1));
        i += 1;
    }
    assert(records@.take(n as int) =~= records@);
    builder.finish_buffer()
}

/// Writes a record sequence as one self-contained buffer under the layout asked for.
pub fn encode(records: &Vec<ProcessedRecord>, layout: Layout) -> (buf: Vec<u8>)
    ensures
        buf@ == encoding(records@, layout),
{
    match layout {
        Layout::RowOriented => encode_rows(records),
        Layout::ColumnOriented => encode_columns(records),
    }
}

} // verus!
