//! Parsing of the amounts, tags, postings and prices of plain-text journals.
pub mod scan;
pub mod decimal;
pub mod amount;
pub mod tags;
pub mod posting;
pub mod price;

pub use amount::{parse_amount, parse_currency_string, parse_money_amount, Amount, AmountError, AmountSign};
pub use decimal::DecimalValue;
pub use posting::{Account, Posting, PostingComplexAmount, Status};
pub use price::{Date, Price};
pub use tags::{parse_tag, Tag, TagError};
