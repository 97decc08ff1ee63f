//! A check-register library: records of financial transactions that can be
//! written to and read from two interchangeable textual encodings, a
//! pretty-printed JSON array and a tab-separated line format, with strict
//! date and amount validation and a running-balance computation over a
//! chain of records.

mod amount;
mod chars;
mod date;
mod digits;
mod json;
mod json_laws;
mod json_parse;
mod record;
mod transaction;
mod transaction_type;
mod transaction_type_parse_error;
mod tsv;

pub use crate::amount::Amount;
pub use crate::date::is_proper_date_format;
pub use crate::date::lemma_date_parse_format_round_trip;
pub use crate::date::DateTime;
pub use crate::json::encode_json;
pub use crate::json_laws::lemma_amount_round_trip;
pub use crate::json_laws::lemma_check_round_trip;
pub use crate::json_laws::lemma_string_round_trip;
pub use crate::json_parse::decode_json;
pub use crate::json_parse::record_matches_raw;
pub use crate::json_parse::spec_decode_json;
pub use crate::json_parse::DecodeError;
pub use crate::json_parse::RawRecord;
pub use crate::record::lemma_record_equality_by_id;
pub use crate::record::Record;
pub use crate::transaction::Transaction;
pub use crate::transaction_type::TransactionType;
pub use crate::tsv::decode_tsv;
pub use crate::tsv::encode_tsv;
pub use crate::tsv::lemma_tsv_lines_of_encode;
pub use crate::tsv::lemma_tsv_round_trip;
pub use crate::tsv::tsv_clean;
pub use crate::transaction_type_parse_error::TransactionTypeParseError;
