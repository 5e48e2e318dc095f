pub mod commits;
pub mod crawler;
pub mod date;
pub mod decimal;
pub mod errors;
pub mod graphql;
pub mod jsonval;
pub mod models;
pub mod repositories;
pub mod timestamp;
