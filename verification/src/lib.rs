//! A monitor of the fees of predicted mempool blocks.
//!
//! A feed sends updates that list the blocks expected to be mined next, each
//! with its fee rates. The library decodes an update into fee summaries
//! (`decoder`), decides whether the nearest blocks have become cheap enough to
//! alert the user (`alert`), and keeps the state of a run of the feed client
//! (`client`). It does no I/O: a driver owns the connection and the alert
//! sink, and asks the library what to do.
//!
//! Numbers are IEEE 754 binary64 throughout, held by their bit patterns
//! (`binary64`, `amount`). JSON documents are those of `serde_json` (`json`).

pub mod alert;
pub mod amount;
pub mod binary64;
pub mod client;
pub mod decoder;
pub mod json;
