//! What the library does, said of texts and lists that are put together from
//! parts: each law takes the parts and says what comes out.
pub mod files;
pub mod links;
pub mod names;
pub mod notes;
pub mod pages;
pub mod shown;
pub mod tagged;
pub mod texts;
