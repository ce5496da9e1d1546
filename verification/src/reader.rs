//! Reading single records out of a borrowed storage buffer.

use vstd::prelude::*;
use vstd::bytes::u64_from_le_bytes;
use vstd::slice::slice_subrange;
use crate::error::DecodeError;
use crate::price::Price;
use crate::record::ProcessedRecord;
use crate::layout::{
    HEADER_LEN, Layout, RECORD_LEN, declared_count, decoded, record_at, root_tag, well_formed,
    word_at, word_position,
};

verus! {

/// What opening `bytes` under `layout` comes to: the first of the three
/// checks that fails, or nothing where the bytes are well formed.
pub open spec fn decode_failure(bytes: Seq<u8>, layout: Layout) -> Option<DecodeError> {
    if bytes.len() < HEADER_LEN {
        Some(DecodeError::Truncated)
    } else if bytes.subrange(0, 8) != root_tag(layout) {
        Some(DecodeError::LayoutMismatch)
    } else if bytes.len() != HEADER_LEN + RECORD_LEN * declared_count(bytes) {
        Some(DecodeError::LengthMismatch)
    } else {
        None
    }
}

/// A byte range is refused exactly when it is not well formed.
pub proof fn lemma_decode_failure(bytes: Seq<u8>, layout: Layout)
    ensures
        decode_failure(bytes, layout).is_none() <==> well_formed(bytes, layout),
{
}

/// Whether the first eight bytes are the root tag of the layout.
fn has_root_tag(bytes: &[u8], layout: Layout) -> (b: bool)
    requires
        bytes@.len() >= 8,
    ensures
        b == (bytes@.subrange(0, 8) == root_tag(layout)),
{
    let common = bytes[0] == 0x4f && bytes[1] == 0x48 && bytes[2] == 0x4c && bytes[3] == 0x43
        && bytes[4] == 0x56 && bytes[6] == 0x4f;
    let own = match layout {
        Layout::RowOriented => bytes[5] == 0x41 && bytes[7] == 0x53,
        Layout::ColumnOriented => bytes[5] == 0x53 && bytes[7] == 0x41,
    };
    proof {
        let head = bytes@.subrange(0, 8);
        let tag = root_tag(layout);
        if common && own {
            assert(head =~= tag);
        } else {
            assert(head[0] == bytes@[0] && head[1] == bytes@[1] && head[2] == bytes@[2]
                && head[3] == bytes@[3] && head[4] == bytes@[4] && head[5] == bytes@[5]
                && head[6] == bytes@[6] && head[7] == bytes@[7]);
            assert(tag[0] == 0x4f && tag[1] == 0x48 && tag[2] == 0x4c && tag[3] == 0x43 && tag[4]
                == 0x56 && tag[6] == 0x4f);
        }
    }
    common && own
}

/// A view over a borrowed storage buffer. It copies nothing: it keeps the
/// bytes it was given and reads each record from its place when asked.
#[derive(Clone, Copy, Debug)]
pub struct StorageReader<'a> {
    bytes: &'a [u8],
    layout: Layout,
    count: usize,
}

impl<'a> View for StorageReader<'a> {
    type V = Seq<ProcessedRecord>;

    /// The records of the buffer, in order.
    closed spec fn view(&self) -> Seq<ProcessedRecord> {
        decoded(self.bytes@, self.layout)
    }
}

impl<'a> StorageReader<'a> {
    #[verifier::type_invariant]
    spec fn inv(self) -> bool {
        &&& well_formed(self.bytes@, self.layout)
        &&& self.count == declared_count(self.bytes@)
    }

    /// The bytes that the reader looks at.
    pub closed spec fn bytes(&self) -> Seq<u8> {
        self.bytes@
    }

    /// The layout under which the reader was opened.
    pub closed spec fn spec_layout(&self) -> Layout {
        self.layout
    }

    /// Opens `bytes` under the layout named by the caller. The layout is
    /// never guessed from the bytes; they are only held to it. Bytes that are
    /// not a buffer of that layout are refused, and no byte outside the range
    /// is ever read.
    pub fn open(bytes: &'a [u8], layout: Layout) -> (r: Result<StorageReader<'a>, DecodeError>)
        ensures
            match r {
                Ok(reader) => {
                    &&& decode_failure(bytes@, layout).is_none()
                    &&& reader.bytes() == bytes@
                    &&& reader.spec_layout() == layout
                    &&& reader@ == decoded(bytes@, layout)
                },
                Err(e) => decode_failure(bytes@, layout) == Some(e),
            },
    {
        let len = bytes.len();
        if len < HEADER_LEN {
            return Err(DecodeError::Truncated);
        }
        if !has_root_tag(bytes, layout) {
            return Err(DecodeError::LayoutMismatch);
        }
        let declared = u64_from_le_bytes(slice_subrange(bytes, 8, 16));
        let payload = len - HEADER_LEN;
        if payload % RECORD_LEN != 0 || (payload / RECORD_LEN) as u64 != declared {
            return Err(DecodeError::LengthMismatch);
        }
        Ok(StorageReader { bytes, layout, count: payload / RECORD_LEN })
    }

    /// The layout under which the reader was opened.
    #[verifier::when_used_as_spec(spec_layout)]
    pub fn layout(&self) -> (l: Layout)
        ensures
            l == self.spec_layout(),
    {
        self.layout
    }

    /// The number of records, in constant time.
    pub fn length(&self) -> (n: usize)
        ensures
            n == self@.len(),
    {
        proof {
            use_type_invariant(self);
            assert(self@.len() == self.count);
        }
        self.count
    }

    /// The word at word position `w` behind the header.
    fn word(&self, w: usize) -> (x: u64)
        requires
            w < 6 * self@.len(),
        ensures
            x == word_at(self.bytes(), w as int),
    {
        proof {
            use_type_invariant(self);
            assert(self@.len() == self.count);
        }
        let len = self.bytes.len();
        assert(len == 16 + 48 * self.count);
        u64_from_le_bytes(slice_subrange(self.bytes, 16 + 8 * w, 24 + 8 * w))
    }

    /// Record `i`, read from its place in constant time: the rows before it
    /// are not looked at.
    pub fn get(&self, i: usize) -> (r: ProcessedRecord)
        requires
            i < self@.len(),
        ensures
            r == self@[i as int],
    {
        proof {
            use_type_invariant(self);
            assert(self@.len() == self.count);
        }
        let len = self.bytes.len();
        assert(len == 16 + 48 * self.count);
        let n = self.count;
        let ghost ws = Seq::new(
            6,
            |f: int| word_at(self.bytes@, word_position(self.layout, n as int, i as int, f)),
        );
        let r = match self.layout {
            Layout::RowOriented => {
                let base = 6 * i;
                ProcessedRecord {
                    timestamp: self.word(base),
                    open: Price { bits: self.word(base + 1) },
                    high: Price { bits: self.word(base + 2) },
                    low: Price { bits: self.word(base + 3) },
                    close: Price { bits: self.word(base + 4) },
                    volume: self.word(base + 5),
                }
            },
            Layout::ColumnOriented => {
                ProcessedRecord {
                    timestamp: self.word(i),
                    open: Price { bits: self.word(n + i) },
                    high: Price { bits: self.word(2 * n + i) },
                    low: Price { bits: self.word(3 * n + i) },
                    close: Price { bits: self.word(4 * n + i) },
                    volume: self.word(5 * n + i),
                }
            },
        };
        proof {
            assert(r.timestamp == ws[0]);
            assert(r.open.bits == ws[1]);
            assert(r.high.bits == ws[2]);
            assert(r.low.bits == ws[3]);
            assert(r.close.bits == ws[4]);
            assert(r.volume == ws[5]);
            assert(r == record_at(self.bytes@, self.layout, i as int));
        }
        r
    }
}

/// A reader that is known to look at a row-oriented buffer.
#[derive(Clone, Copy, Debug)]
pub struct RowReader<'a> {
    inner: StorageReader<'a>,
}

impl<'a> View for RowReader<'a> {
    type V = Seq<ProcessedRecord>;

    /// The records of the buffer, in order.
    closed spec fn view(&self) -> Seq<ProcessedRecord> {
        self.inner@
    }
}

impl<'a> RowReader<'a> {
    #[verifier::type_invariant]
    spec fn inv(self) -> bool {
        self.inner.spec_layout() == Layout::RowOriented
    }

    /// The bytes that the reader looks at.
    pub closed spec fn bytes(&self) -> Seq<u8> {
        self.inner.bytes()
    }

    /// The reader of either layout that this one stands for.
    pub closed spec fn spec_reader(&self) -> StorageReader<'a> {
        self.inner
    }

    /// Opens `bytes` as a row-oriented buffer.
    pub fn open(bytes: &'a [u8]) -> (r: Result<RowReader<'a>, DecodeError>)
        ensures
            match r {
                Ok(reader) => {
                    &&& decode_failure(bytes@, Layout::RowOriented).is_none()
                    &&& reader.bytes() == bytes@
                    &&& reader@ == decoded(bytes@, Layout::RowOriented)
                },
                Err(e) => decode_failure(bytes@, Layout::RowOriented) == Some(e),
            },
    {
        match StorageReader::open(bytes, Layout::RowOriented) {
            Ok(inner) => Ok(RowReader { inner }),
            Err(e) => Err(e),
        }
    }

    /// The same view as a reader of either layout.
    #[verifier::when_used_as_spec(spec_reader)]
    pub fn reader(&self) -> (r: StorageReader<'a>)
        ensures
            r == self.spec_reader(),
            r@ == self@,
            r.bytes() == self.bytes(),
            r.spec_layout() == Layout::RowOriented,
    {
        proof {
            use_type_invariant(self);
        }
        self.inner
    }

    /// The number of records, in constant time.
    pub fn length(&self) -> (n: usize)
        ensures
            n == self@.len(),
    {
        self.inner.length()
    }

    /// Record `i`, read from its place in constant time.
    pub fn get(&self, i: usize) -> (r: ProcessedRecord)
        requires
            i < self@.len(),
        ensures
            r == self@[i as int],
    {
        self.inner.get(i)
    }
}

/// A reader that is known to look at a column-oriented buffer.
#[derive(Clone, Copy, Debug)]
pub struct ColumnReader<'a> {
    inner: StorageReader<'a>,
}

impl<'a> View for ColumnReader<'a> {
    type V = Seq<ProcessedRecord>;

    /// The records of the buffer, in order.
    closed spec fn view(&self) -> Seq<ProcessedRecord> {
        self.inner@
    }
}

impl<'a> ColumnReader<'a> {
    #[verifier::type_invariant]
    spec fn inv(self) -> bool {
        self.inner.spec_layout() == Layout::ColumnOriented
    }

    /// The bytes that the reader looks at.
    pub closed spec fn bytes(&self) -> Seq<u8> {
        self.inner.bytes()
    }

    /// The reader of either layout that this one stands for.
    pub closed spec fn spec_reader(&self) -> StorageReader<'a> {
        self.inner
    }

    /// Opens `bytes` as a column-oriented buffer.
    pub fn open(bytes: &'a [u8]) -> (r: Result<ColumnReader<'a>, DecodeError>)
        ensures
            match r {
                Ok(reader) => {
                    &&& decode_failure(bytes@, Layout::ColumnOriented).is_none()
                    &&& reader.bytes() == bytes@
                    &&& reader@ == decoded(bytes@, Layout::ColumnOriented)
                },
                Err(e) => decode_failure(bytes@, Layout::ColumnOriented) == Some(e),
            },
    {
        match StorageReader::open(bytes, Layout::ColumnOriented) {
            Ok(inner) => Ok(ColumnReader { inner }),
            Err(e) => Err(e),
        }
    }

    /// The same view as a reader of either layout.
    #[verifier::when_used_as_spec(spec_reader)]
    pub fn reader(&self) -> (r: StorageReader<'a>)
        ensures
            r == self.spec_reader(),
            r@ == self@,
            r.bytes() == self.bytes(),
            r.spec_layout() == Layout::ColumnOriented,
    {
        proof {
            use_type_invariant(self);
        }
        self.inner
    }

    /// The number of records, in constant time.
    pub fn length(&self) -> (n: usize)
        ensures
            n == self@.len(),
    {
        self.inner.length()
    }

    /// Record `i`, read from its place in constant time.
    pub fn get(&self, i: usize) -> (r: ProcessedRecord)
        requires
            i < self@.len(),
        ensures
            r == self@[i as int],
    {
        self.inner.get(i)
    }
}

} // verus!
