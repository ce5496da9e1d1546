//! Storage, index and aggregation engine for time-ordered OHLCV market records.
//!
//! A dataset is a sequence of records in time order. It is kept as one flat
//! byte buffer, row-oriented or column-oriented, with an index beside it: the
//! row of every record, the rows of every calendar day, and the bucket starts
//! of six timeframes. A reader looks at the bytes where they lie and hands out
//! single records; the aggregation turns the records into bars of fixed width
//! or of calendar days.
//!
//! Every function of the library is verified against its contract. What is
//! taken on trust are four calls: three into the calendar crate, for reading
//! and writing dates, and one into the standard library, for reading a
//! number. Each is a private function with a comment that says what is
//! believed of it.

pub mod price;
pub mod error;
pub mod record;
pub mod index;
pub mod utils;
pub mod runs;
pub mod layout;
pub mod encoder;
pub mod reader;
pub mod aggregate;
pub mod daily;
pub mod buckets;
pub mod resample;
pub mod index_builder;
pub mod csv_processor;
pub mod cli;
pub mod query;
