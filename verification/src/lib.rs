//! What a handful of crypto holdings is worth, in US dollars or in pounds.
//!
//! The library resolves the names of assets, says which price and rate
//! services are to be asked and in what order, reads their replies, and
//! adds up the report. It never talks to a service itself: `get_price`
//! hands out one address at a time and takes the reply. All amounts are
//! exact decimal numbers; only rounding to the cent loses anything.

pub mod assets;
pub mod decimal;
pub mod decrypt_api_key;
pub mod digits;
pub mod errors;
pub mod get_price;
pub mod json;
pub mod rates;
pub mod source;
pub mod text;
