pub mod blocknote;
pub mod clock;
pub mod document;
pub mod filename;
pub mod inline;
pub mod json;
pub mod stored;
pub mod summary;
pub mod text;
