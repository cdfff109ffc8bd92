//! Entropy scanning: finding files whose contents look like random data.
//!
//! The library holds the rules of a scan and leaves every read to its
//! caller: [`filter`] screens entries by metadata, [`entropy`] plans the
//! sample of a file and counts its bytes, [`evaluate`] decides whether a
//! scored file is a finding, and [`scan`] coordinates the producer of
//! entries with the workers that evaluate them.

pub mod config;
pub mod entropy;
pub mod evaluate;
pub mod filter;
pub mod scan;

pub use evaluate::check_file;
pub use evaluate::get_file_type;
