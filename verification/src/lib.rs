pub mod text;
pub mod date;
pub mod parser;
pub mod cmd_parser;
pub mod note;
pub mod ledger;
pub mod sync;
pub mod repo;
pub mod corelib;
pub mod walnut;
pub mod frame;
pub mod parse;
pub mod transaction;
pub mod config;
pub mod model;
pub mod settings;
pub mod tools;
pub mod inspector;
pub mod file;
pub mod project;
pub mod db_sync;
pub mod editor;
