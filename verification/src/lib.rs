//! Verified core of a small partner-ledger and text-to-speech back end.

pub mod calendar;
pub mod digest;
pub mod ledger;
pub mod lex;
pub mod listing;
pub mod lookup;
pub mod paging;
pub mod partner;
pub mod schema;
pub mod text;
pub mod tts;
pub mod unicode;

