pub mod dynamodb;
pub mod sqlite;
pub mod ynab;
