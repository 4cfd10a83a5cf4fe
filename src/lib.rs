//! Conversion of a custodial wallet's transaction export into the import format of a
//! Norwegian crypto tax tool: money values, timestamp and record parsing, classification
//! of transactions, the daily interest merge and the output columns.

pub mod text;
pub mod money;
pub mod time;
pub mod xapo;
pub mod kryptosekken;
pub mod convert;
