//! Day-ahead electricity price retrieval for a fixed set of bidding areas.
//!
//! The library maps an area code to the market-data provider's domain
//! identifier and decodes the provider's XML price document into an ordered
//! list of hourly price points with currency-aware monetary values. All
//! network plumbing lives outside the library; the decoder is a pure
//! function of the response text.

pub mod areas;
pub mod decode;
pub mod digits;
pub mod errors;
pub mod money;
pub mod scan;
pub mod timestamp;

pub use areas::Entsoe;
pub use decode::decode;
pub use errors::GetPriceError;
pub use money::{MoneyVal, Price};
pub use timestamp::Timestamp;
