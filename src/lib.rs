//! Tags (`#name`) and mentions (`@name`) in a book's documents: each marker is
//! turned into a link to an index document, and a tags index and a mentions
//! index list, for every marker, the documents in which it occurs.

pub mod chars;
pub mod index;
pub mod linker;
pub mod indexer;
pub mod render;
pub mod rewriter;
pub mod tokenizer;

pub use index::{IndexEntry, IndexTable};
pub use indexer::{add_index_chapter, collect_mentions_and_tags, process_chapter, Document, Indexer};
pub use render::generate_index;
pub use linker::link_markers;
pub use rewriter::rewrite_markers;
pub use tokenizer::extract_prefix_items;
