//! A small columnar storage engine: typed pages with null bitmaps, a page file
//! format, a bounded least-recently-used page cache, and collections that join
//! pages into one logical column.

pub mod cache;
pub mod codec;
pub mod collection;
pub mod file;
pub mod page;
pub mod trusted;
pub mod types;

pub use cache::PageCache;
pub use codec::PageData;
pub use collection::Collection;
pub use collection::CollectionBoolIter;
pub use collection::CollectionFloatIter;
pub use collection::CollectionIntIter;
pub use collection::CollectionStringIter;
pub use file::PageReader;
pub use file::PageWriter;
pub use page::Page;
pub use page::PageKey;
pub use page::PageMeta;
pub use types::Bound;
pub use types::PageError;
pub use types::PageStats;
pub use types::Type;
