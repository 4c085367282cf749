pub mod cents;
pub mod id;
pub mod record;
pub mod splitwise;
pub mod transformer;
pub mod ynab;
