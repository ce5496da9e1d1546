//! The rules of a request: thread counts, timeframe labels, and the file
//! names by which a buffer declares its layout and finds its index.

use vstd::prelude::*;
use vstd::string::{StrSliceExecFns, StringExecFns};
use crate::error::ConfigError;
use crate::layout::Layout;

verus! {

/// What a run was asked to do.
#[derive(Clone, Debug)]
pub struct Args {
    /// Where the text files lie.
    pub input: String,
    /// Where the storage buffers and their indices go.
    pub output: String,
    /// How many workers to use; the ambient number where none is given.
    pub threads: Option<usize>,
    /// Whether to read the written buffers back.
    pub check: bool,
    /// The timeframe to aggregate to while reading back.
    pub resample: Option<String>,
}

/// The buckets that a request can name.
#[derive(Clone, Copy, Debug, PartialEq, Eq, Structural)]
pub enum Timeframe {
    /// Buckets of a fixed number of seconds.
    Seconds(u64),
    /// One bucket per calendar day.
    Daily,
}

/// The timeframe that a request label stands for, if it is one of the six.
pub open spec fn timeframe_of(label: Seq<char>) -> Option<Timeframe> {
    if label == "1min"@ {
        Some(Timeframe::Seconds(60))
    } else if label == "2min"@ {
        Some(Timeframe::Seconds(120))
    } else if label == "3min"@ {
        Some(Timeframe::Seconds(180))
    } else if label == "4min"@ {
        Some(Timeframe::Seconds(240))
    } else if label == "5min"@ {
        Some(Timeframe::Seconds(300))
    } else if label == "1d"@ {
        Some(Timeframe::Daily)
    } else {
        None
    }
}

/// Whether two texts are the same text.
fn same_text(a: &str, b: &str) -> (same: bool)
    ensures
        same == (a@ == b@),
{
    String::from_str(a) == String::from_str(b)
}

/// Reads a request label.
pub fn timeframe_for_label(label: &str) -> (r: Option<Timeframe>)
    ensures
        r == timeframe_of(label@),
{
    if same_text(label, "1min") {
        Some(Timeframe::Seconds(60))
    } else if same_text(label, "2min") {
        Some(Timeframe::Seconds(120))
    } else if same_text(label, "3min") {
        Some(Timeframe::Seconds(180))
    } else if same_text(label, "4min") {
        Some(Timeframe::Seconds(240))
    } else if same_text(label, "5min") {
        Some(Timeframe::Seconds(300))
    } else if same_text(label, "1d") {
        Some(Timeframe::Daily)
    } else {
        None
    }
}

/// Why a request is turned down, if it is: a thread count of zero, a
/// timeframe without the reading pass, or a label that names no timeframe.
pub open spec fn request_fault(threads: Option<usize>, check: bool, resample: Option<Seq<char>>)
    -> Option<ConfigError> {
    if threads == Some(0usize) {
        Some(ConfigError::ZeroThreads)
    } else {
        match resample {
            None => None,
            Some(label) => if !check {
                Some(ConfigError::ResampleWithoutCheck)
            } else if timeframe_of(label).is_none() {
                Some(ConfigError::UnknownTimeframe)
            } else {
                None
            },
        }
    }
}

impl Args {
    /// The label asked for, as text.
    pub open spec fn resample_text(&self) -> Option<Seq<char>> {
        match self.resample {
            Some(label) => Some(label@),
            None => None,
        }
    }

    /// Holds the request to the rules, before any file is touched.
    pub fn validate(&self) -> (r: Result<(), ConfigError>)
        ensures
            match r {
                Ok(_) => request_fault(self.threads, self.check, self.resample_text()).is_none(),
                Err(e) => request_fault(self.threads, self.check, self.resample_text()) == Some(e),
            },
    {
        if let Some(n) = self.threads {
            if n == 0 {
                return Err(ConfigError::ZeroThreads);
            }
        }
        match &self.resample {
            None => Ok(()),
            Some(label) => {
                if !self.check {
                    Err(ConfigError::ResampleWithoutCheck)
                } else if timeframe_for_label(label.as_str()).is_none() {
                    Err(ConfigError::UnknownTimeframe)
                } else {
                    Ok(())
                }
            },
        }
    }
}

/// The number of workers to run: the number asked for, capped at what the
/// machine offers; the ambient number where none was asked for.
pub open spec fn thread_count(requested: Option<usize>, available: usize, ambient: usize)
    -> Result<usize, ConfigError> {
    match requested {
        None => Ok(ambient),
        Some(n) => if n == 0 {
            Err(ConfigError::ZeroThreads)
        } else if n > available {
            Ok(available)
        } else {
            Ok(n)
        },
    }
}

/// Decides how many workers to run.
pub fn effective_threads(requested: Option<usize>, available: usize, ambient: usize) -> (r: Result<
    usize,
    ConfigError,
>)
    ensures
        r == thread_count(requested, available, ambient),
{
    match requested {
        None => Ok(ambient),
        Some(n) => {
            if n == 0 {
                Err(ConfigError::ZeroThreads)
            } else if n > available {
                Ok(available)
            } else {
                Ok(n)
            }
        },
    }
}

/// The number that a run of decimal digits writes.
pub open spec fn digits_value(digits: Seq<char>) -> nat
    decreases digits.len(),
{
    if digits.len() == 0 {
        0
    } else {
        (digits_value(digits.drop_last()) * 10 + (digits.last() as u32 - 48)) as nat
    }
}

/// The number that a text writes in decimal: one or more of the digits `0`
/// to `9`, with or without one `+` before them. Any other text writes none.
pub open spec fn numeral_value(text: Seq<char>) -> Option<nat> {
    let digits = if text.len() > 0 && text[0] == '+' {
        text.subrange(1, text.len() as int)
    } else {
        text
    };
    if digits.len() > 0 && forall|i: int|
        0 <= i < digits.len() ==> 48 <= #[trigger] digits[i] as u32 <= 57 {
        Some(digits_value(digits))
    } else {
        None
    }
}

/// Calls `str::parse::<usize>` of the standard library and writes its error
/// out as text. Trusted, as the library's documentation has it: the text is
/// read as an optional `+` followed by decimal digits only; the number comes
/// back where it fits the type, and an error for every other text.
#[verifier::external_body]
fn parse_usize(s: &str) -> (r: Result<usize, String>)
    ensures
        match r {
            Ok(n) => numeral_value(s@) == Some(n as nat),
            Err(_) => numeral_value(s@) matches Some(v) ==> v > usize::MAX,
        },
{
    match s.parse::<usize>() {
        Ok(n) => Ok(n),
        Err(e) => Err(e.to_string()),
    }
}

/// What a thread count that was read from text comes to.
pub open spec fn positive_count(parsed: Result<usize, Seq<char>>) -> Result<usize, Seq<char>> {
    match parsed {
        Ok(n) => if n == 0 {
            Err("Must be a positive integer"@)
        } else {
            Ok(n)
        },
        Err(why) => Err("Not a valid number: "@ + why),
    }
}

/// The text of a result, where it holds one.
pub open spec fn text_of(r: Result<usize, String>) -> Result<usize, Seq<char>> {
    match r {
        Ok(n) => Ok(n),
        Err(why) => Err(why@),
    }
}

/// Holds a number read from text to the rule that a thread count is above
/// zero, and says in words why one is refused.
pub fn positive_from_parsed(parsed: Result<usize, String>) -> (r: Result<usize, String>)
    ensures
        text_of(r) == positive_count(text_of(parsed)),
{
    match parsed {
        Ok(n) => {
            if n == 0 {
                Err(String::from_str("Must be a positive integer"))
            } else {
                Ok(n)
            }
        },
        Err(why) => {
            let mut message = String::from_str("Not a valid number: ");
            message.append(why.as_str());
            Err(message)
        },
    }
}

/// Reads a thread count from text. A decimal numeral above zero that fits
/// the machine's word is accepted, and nothing else; a numeral of zero is
/// refused as not positive, every other text as no valid number.
pub fn parse_usize_positive(s: &str) -> (r: Result<usize, String>)
    ensures
        match r {
            Ok(n) => n > 0 && numeral_value(s@) == Some(n as nat),
            Err(why) => match numeral_value(s@) {
                Some(v) => if v == 0 {
                    why@ == "Must be a positive integer"@
                } else {
                    v > usize::MAX && "Not a valid number: "@.is_prefix_of(why@)
                },
                None => "Not a valid number: "@.is_prefix_of(why@),
            },
        },
{
    let parsed = parse_usize(s);
    let ghost given = text_of(parsed);
    let r = positive_from_parsed(parsed);
    proof {
        if let Err(why) = given {
            assert(("Not a valid number: "@ + why).subrange(0, "Not a valid number: "@.len() as int)
                =~= "Not a valid number: "@);
        }
    }
    r
}

/// Whether a text ends with another.
pub open spec fn ends_with(text: Seq<char>, tail: Seq<char>) -> bool {
    text.len() >= tail.len() && text.subrange(text.len() - tail.len(), text.len() as int) == tail
}

/// The layout that a file name declares: row-oriented for a name that ends
/// in `.aos.bin`, column-oriented for one that ends in `.soa.bin`, none
/// otherwise.
pub open spec fn layout_of_name(file_name: Seq<char>) -> Option<Layout> {
    if ends_with(file_name, ".aos.bin"@) {
        Some(Layout::RowOriented)
    } else if ends_with(file_name, ".soa.bin"@) {
        Some(Layout::ColumnOriented)
    } else {
        None
    }
}

/// Whether `text` ends with `tail`.
fn has_tail(text: &str, tail: &str) -> (b: bool)
    ensures
        b == ends_with(text@, tail@),
{
    let n = text.unicode_len();
    let m = tail.unicode_len();
    if n < m {
        false
    } else {
        same_text(text.substring_char(n - m, n), tail)
    }
}

/// Reads the layout of a buffer from the name of its file. The bytes of the
/// buffer are not looked at.
pub fn determine_storage_format_from_path(file_name: &str) -> (r: Option<Layout>)
    ensures
        r == layout_of_name(file_name@),
{
    if has_tail(file_name, ".aos.bin") {
        Some(Layout::RowOriented)
    } else if has_tail(file_name, ".soa.bin") {
        Some(Layout::ColumnOriented)
    } else {
        None
    }
}

/// The tail by which a file name declares a layout.
pub open spec fn layout_tail(layout: Layout) -> Seq<char> {
    match layout {
        Layout::RowOriented => ".aos.bin"@,
        Layout::ColumnOriented => ".soa.bin"@,
    }
}

/// The name of the file that holds the buffer of a dataset: the base name of
/// the dataset, then the tail that declares the layout.
pub fn buffer_file_name(stem: &str, storage_format: Layout) -> (name: String)
    ensures
        name@ == stem@ + layout_tail(storage_format),
{
    let mut name = String::from_str(stem);
    match storage_format {
        Layout::RowOriented => name.append(".aos.bin"),
        Layout::ColumnOriented => name.append(".soa.bin"),
    }
    name
}

/// The name of the index file beside a buffer file: the same name with the
/// ending `.idx` in place of the ending `.bin`, or behind the name where it
/// has no such ending.
pub open spec fn index_name_of(file_name: Seq<char>) -> Seq<char> {
    if ends_with(file_name, ".bin"@) {
        file_name.subrange(0, file_name.len() - ".bin"@.len()) + ".idx"@
    } else {
        file_name + ".idx"@
    }
}

/// The name of the index file that belongs to a buffer file.
pub fn companion_index_name(file_name: &str) -> (name: String)
    ensures
        name@ == index_name_of(file_name@),
{
    let n = file_name.unicode_len();
    let m = ".bin".unicode_len();
    if has_tail(file_name, ".bin") {
        let mut name = String::from_str(file_name.substring_char(0, n - m));
        name.append(".idx");
        name
    } else {
        let mut name = String::from_str(file_name);
        name.append(".idx");
        name
    }
}

/// The layout that a buffer was written under is the layout that the name of
/// its file declares, whatever the base name of the dataset.
pub proof fn lemma_name_declares_layout(stem: Seq<char>, layout: Layout)
    ensures
        layout_of_name(stem + layout_tail(layout)) == Some(layout),
{
    reveal_strlit(".aos.bin");
    reveal_strlit(".soa.bin");
    let tail = layout_tail(layout);
    let name = stem + tail;
    assert(name.subrange(name.len() - tail.len(), name.len() as int) =~= tail);
    let other = layout_tail(Layout::RowOriented);
    if layout == Layout::ColumnOriented {
        let end = name.subrange(name.len() - other.len(), name.len() as int);
        assert(end[1] == tail[1]);
        assert(tail[1] != other[1]);
    }
}

} // verus!
