//! The two byte layouts of a storage buffer, and the proof that what is
//! written under a layout is read back under it.

use vstd::prelude::*;
use vstd::bytes::{spec_u64_from_le_bytes, spec_u64_to_le_bytes, lemma_auto_spec_u64_to_from_le_bytes};
use crate::record::{ProcessedRecord, record_words, record_of_words};

verus! {

/// The physical arrangement of a storage buffer. A buffer does not say how it
/// is to be read: whoever opens one names the layout, and a buffer written
/// under the other layout is refused.
#[derive(Clone, Copy, Debug, PartialEq, Eq, Structural)]
pub enum Layout {
    /// Record after record, the six fields of each side by side.
    RowOriented,
    /// Six arrays of equal length, one per field, read by a shared row number.
    ColumnOriented,
}

/// Bytes before the first stored word: the root tag and the record count.
pub const HEADER_LEN: usize = 16;

/// Bytes that one record takes, under either layout.
pub const RECORD_LEN: usize = 48;

/// The eight bytes that open a buffer and name its root structure:
/// `OHLCVAOS` for rows, `OHLCVSOA` for columns.
pub open spec fn root_tag(layout: Layout) -> Seq<u8> {
    match layout {
        Layout::RowOriented => seq![0x4fu8, 0x48u8, 0x4cu8, 0x43u8, 0x56u8, 0x41u8, 0x4fu8, 0x53u8],
        Layout::ColumnOriented => seq![0x4fu8, 0x48u8, 0x4cu8, 0x43u8, 0x56u8, 0x53u8, 0x4fu8, 0x41u8],
    }
}

/// The little-endian bytes of a run of words, one word after the other.
pub open spec fn words_bytes(words: Seq<u64>) -> Seq<u8>
    decreases words.len(),
{
    if words.len() == 0 {
        Seq::empty()
    } else {
        words_bytes(words.drop_last()) + spec_u64_to_le_bytes(words.last())
    }
}

/// The words of a record sequence in the order in which a layout stores them.
pub open spec fn stored_words(records: Seq<ProcessedRecord>, layout: Layout) -> Seq<u64> {
    match layout {
        Layout::RowOriented => Seq::new(
            6 * records.len(),
            |w: int| record_words(records[w / 6])[w % 6],
        ),
        Layout::ColumnOriented => column_words(records, 0) + column_words(records, 1)
            + column_words(records, 2) + column_words(records, 3) + column_words(records, 4)
            + column_words(records, 5),
    }
}

/// One field of every record, in record order.
pub open spec fn column_words(records: Seq<ProcessedRecord>, field: int) -> Seq<u64> {
    Seq::new(records.len(), |i: int| record_words(records[i])[field])
}

/// The buffer that holds `records` under `layout`: the root tag, the record
/// count, then the words.
pub open spec fn encoding(records: Seq<ProcessedRecord>, layout: Layout) -> Seq<u8> {
    root_tag(layout) + spec_u64_to_le_bytes(records.len() as u64) + words_bytes(
        stored_words(records, layout),
    )
}

/// The record count that a buffer declares.
pub open spec fn declared_count(bytes: Seq<u8>) -> nat {
    spec_u64_from_le_bytes(bytes.subrange(8, 16)) as nat
}

/// Whether `bytes` has the shape of a buffer written under `layout`: long
/// enough for a header, opened by that layout's tag, and exactly as long as
/// the declared count of records asks.
pub open spec fn well_formed(bytes: Seq<u8>, layout: Layout) -> bool {
    &&& bytes.len() >= HEADER_LEN
    &&& bytes.subrange(0, 8) == root_tag(layout)
    &&& bytes.len() == HEADER_LEN + RECORD_LEN * declared_count(bytes)
}

/// The word that a buffer holds at word position `w` behind the header.
pub open spec fn word_at(bytes: Seq<u8>, w: int) -> u64 {
    spec_u64_from_le_bytes(bytes.subrange(16 + 8 * w, 24 + 8 * w))
}

/// The word position of field `field` of record `i` in a buffer of `count` records.
pub open spec fn word_position(layout: Layout, count: int, i: int, field: int) -> int {
    match layout {
        Layout::RowOriented => 6 * i + field,
        Layout::ColumnOriented => field * count + i,
    }
}

/// Record `i` of a buffer, read straight from its place.
pub open spec fn record_at(bytes: Seq<u8>, layout: Layout, i: int) -> ProcessedRecord {
    let n = declared_count(bytes) as int;
    record_of_words(Seq::new(6, |f: int| word_at(bytes, word_position(layout, n, i, f))))
}

/// The records of a well-formed buffer, in order.
pub open spec fn decoded(bytes: Seq<u8>, layout: Layout) -> Seq<ProcessedRecord> {
    Seq::new(declared_count(bytes), |i: int| record_at(bytes, layout, i))
}

/// Appending one word to a run appends its eight bytes.
pub proof fn lemma_words_bytes_push(words: Seq<u64>, x: u64)
    ensures
        words_bytes(words.push(x)) == words_bytes(words) + spec_u64_to_le_bytes(x),
{
    assert(words.push(x).drop_last() == words);
}

/// A run of words takes eight bytes per word.
pub proof fn lemma_words_bytes_len(words: Seq<u64>)
    ensures
        words_bytes(words).len() == 8 * words.len(),
    decreases words.len(),
{
    lemma_auto_spec_u64_to_from_le_bytes();
    if words.len() > 0 {
        lemma_words_bytes_len(words.drop_last());
    }
}

/// The eight bytes at word position `w` of a run are the bytes of word `w`.
pub proof fn lemma_words_bytes_at(words: Seq<u64>, w: int)
    requires
        0 <= w < words.len(),
    ensures
        words_bytes(words).len() == 8 * words.len(),
        words_bytes(words).subrange(8 * w, 8 * w + 8) == spec_u64_to_le_bytes(words[w]),
    decreases words.len(),
{
    lemma_auto_spec_u64_to_from_le_bytes();
    lemma_words_bytes_len(words);
    lemma_words_bytes_len(words.drop_last());
    let front = words_bytes(words.drop_last());
    let back = spec_u64_to_le_bytes(words.last());
    if w == words.len() - 1 {
        assert((front + back).subrange(8 * w, 8 * w + 8) =~= back);
    } else {
        lemma_words_bytes_at(words.drop_last(), w);
        assert((front + back).subrange(8 * w, 8 * w + 8) =~= front.subrange(8 * w, 8 * w + 8));
    }
}

/// Field `field` of record `i` stands at its word position.
pub proof fn lemma_stored_words_at(
    records: Seq<ProcessedRecord>,
    layout: Layout,
    i: int,
    field: int,
)
    requires
        0 <= i < records.len(),
        0 <= field < 6,
    ensures
        0 <= word_position(layout, records.len() as int, i, field) < 6 * records.len(),
        stored_words(records, layout)[word_position(layout, records.len() as int, i, field)]
            == record_words(records[i])[field],
{
    let n = records.len() as int;
    match layout {
        Layout::RowOriented => {
            let w = 6 * i + field;
            assert(w / 6 == i && w % 6 == field);
        },
        Layout::ColumnOriented => {
            let c0 = column_words(records, 0);
            let c1 = column_words(records, 1);
            let c2 = column_words(records, 2);
            let c3 = column_words(records, 3);
            let c4 = column_words(records, 4);
            let c5 = column_words(records, 5);
            if field == 0 {
                assert(word_position(layout, n, i, field) == i);
            } else if field == 1 {
                assert(word_position(layout, n, i, field) == n + i);
            } else if field == 2 {
                assert(word_position(layout, n, i, field) == 2 * n + i);
            } else if field == 3 {
                assert(word_position(layout, n, i, field) == 3 * n + i);
            } else if field == 4 {
                assert(word_position(layout, n, i, field) == 4 * n + i);
            } else {
                assert(word_position(layout, n, i, field) == 5 * n + i);
            }
        },
    }
}

/// The length of a buffer: a header and forty-eight bytes per record.
pub proof fn lemma_encoding_len(records: Seq<ProcessedRecord>, layout: Layout)
    ensures
        encoding(records, layout).len() == HEADER_LEN + RECORD_LEN * records.len(),
{
    lemma_auto_spec_u64_to_from_le_bytes();
    lemma_words_bytes_len(stored_words(records, layout));
}

/// What a buffer holds at a word position is the word that was stored there.
pub proof fn lemma_encoding_word(records: Seq<ProcessedRecord>, layout: Layout, w: int)
    requires
        0 <= w < 6 * records.len(),
    ensures
        word_at(encoding(records, layout), w) == stored_words(records, layout)[w],
{
    lemma_auto_spec_u64_to_from_le_bytes();
    let words = stored_words(records, layout);
    let head = root_tag(layout) + spec_u64_to_le_bytes(records.len() as u64);
    let body = words_bytes(words);
    lemma_words_bytes_at(words, w);
    assert(head.len() == 16);
    assert((head + body).subrange(16 + 8 * w, 24 + 8 * w) =~= body.subrange(8 * w, 8 * w + 8));
}

/// Record `i` of a buffer is the record that was written as the `i`-th.
pub proof fn lemma_record_at(records: Seq<ProcessedRecord>, layout: Layout, i: int)
    requires
        records.len() <= u64::MAX,
        0 <= i < records.len(),
    ensures
        declared_count(encoding(records, layout)) == records.len(),
        record_at(encoding(records, layout), layout, i) == records[i],
{
    lemma_auto_spec_u64_to_from_le_bytes();
    let bytes = encoding(records, layout);
    let n = records.len() as int;
    lemma_encoding_len(records, layout);
    assert(bytes.subrange(8, 16) =~= spec_u64_to_le_bytes(records.len() as u64));
    let r = records[i];
    let ws = Seq::new(6, |f: int| word_at(bytes, word_position(layout, n, i, f)));
    assert forall|f: int| 0 <= f < 6 implies #[trigger] ws[f] == record_words(r)[f] by {
        lemma_stored_words_at(records, layout, i, f);
        lemma_encoding_word(records, layout, word_position(layout, n, i, f));
    }
    assert(ws[0] == record_words(r)[0]);
    assert(ws[1] == record_words(r)[1]);
    assert(ws[2] == record_words(r)[2]);
    assert(ws[3] == record_words(r)[3]);
    assert(ws[4] == record_words(r)[4]);
    assert(ws[5] == record_words(r)[5]);
}

/// Round trip: a buffer written under a layout is well formed under that
/// layout, and reading it gives back the records that were written, each in
/// its place.
pub proof fn lemma_round_trip(records: Seq<ProcessedRecord>, layout: Layout)
    requires
        records.len() <= u64::MAX,
    ensures
        well_formed(encoding(records, layout), layout),
        decoded(encoding(records, layout), layout) == records,
{
    lemma_auto_spec_u64_to_from_le_bytes();
    let bytes = encoding(records, layout);
    let n = records.len() as int;
    let count = spec_u64_to_le_bytes(records.len() as u64);
    let body = words_bytes(stored_words(records, layout));
    lemma_encoding_len(records, layout);
    assert(bytes.subrange(0, 8) =~= root_tag(layout));
    assert(bytes.subrange(8, 16) =~= count);
    assert(declared_count(bytes) == n);
    assert forall|i: int| 0 <= i < n implies record_at(bytes, layout, i) == records[i] by {
        lemma_record_at(records, layout, i);
    }
    assert(decoded(bytes, layout) =~= records);
}

/// The two layouts store the same logical sequence: what is read back from a
/// row buffer is what is read back from the column buffer of the same records.
pub proof fn lemma_layouts_agree(records: Seq<ProcessedRecord>)
    requires
        records.len() <= u64::MAX,
    ensures
        decoded(encoding(records, Layout::RowOriented), Layout::RowOriented) == decoded(
            encoding(records, Layout::ColumnOriented),
            Layout::ColumnOriented,
        ),
{
    lemma_round_trip(records, Layout::RowOriented);
    lemma_round_trip(records, Layout::ColumnOriented);
}

/// A buffer written under one layout is not well formed under the other.
pub proof fn lemma_wrong_layout_refused(
    records: Seq<ProcessedRecord>,
    written: Layout,
    asked: Layout,
)
    requires
        written != asked,
    ensures
        !well_formed(encoding(records, written), asked),
{
    lemma_auto_spec_u64_to_from_le_bytes();
    let bytes = encoding(records, written);
    assert(bytes.subrange(0, 8) =~= root_tag(written));
    assert(root_tag(Layout::RowOriented)[5] != root_tag(Layout::ColumnOriented)[5]);
}

} // verus!
