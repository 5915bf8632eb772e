pub mod rel;
pub mod catalog;
pub mod sql;
pub mod parser;
pub mod sqltorel;
pub mod eval;
pub mod datasource;
pub mod exec;
pub mod relation;
pub mod laws;
pub mod executor;
