//! A pod for short notes: what the server does with notes, tags, pages and
//! uploads.
//!
//! `text` says what searching, splitting, replacing and trimming mean, and
//! `scan` carries them out. `draft` prepares the text of a note, `note` writes
//! and reads the file of notes, and `pod` answers the requests. `embed` and
//! `page` write HTML, `upload` and `filename` make file names. `rules` and
//! `reload` show that what is saved is read back, from a file that no failed
//! download rewrote, and what is read from one that was rewritten. `laws` says
//! what each operation does with texts and lists that are put together from parts.
pub mod clock;
pub mod config;
pub mod draft;
pub mod embed;
pub mod filename;
pub mod laws;
pub mod markdown;
pub mod note;
pub mod page;
pub mod pod;
pub mod reload;
pub mod rules;
mod scan;
pub mod status;
pub mod tags;
pub mod text;
pub mod unicode;
pub mod upload;
