//! Sync engine for a remote build service: request building, outcome
//! classification, change debouncing, route resolution and bundle layout.

pub mod archive;
pub mod arrange;
pub mod assoc;
pub mod builder;
pub mod bundle;
pub mod colossus;
pub mod configs;
pub mod debounce;
pub mod dispatch;
pub mod error;
pub mod json;
pub mod link;
pub mod logi;
pub mod policy;
pub mod resolver;
pub mod routes;
pub mod syntax;
pub mod text;
