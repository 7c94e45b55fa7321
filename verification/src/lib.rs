pub mod text;
pub mod tokenizer;
pub mod keys;
pub mod term_counts;
pub mod database;
pub mod inverted_index;
pub mod parser;
pub mod indexer;
pub mod laws;
pub mod file_laws;
