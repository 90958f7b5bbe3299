pub mod registers;
pub mod codec;
pub mod engine;
pub mod entry;
pub mod sketch;
pub mod version;
