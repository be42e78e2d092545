//! A desktop file-name search engine: path rules, the document index, the
//! state store, the change watcher and the query service.

pub mod paths;
pub mod index_store;
pub mod entry;
pub mod text;
pub mod state;
pub mod indexer;
pub mod watcher;
pub mod tokenizer;
