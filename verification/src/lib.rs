//! An mdbook-style preprocessor that replaces `gabc`-labelled fenced code
//! blocks in Markdown text with an escaped HTML `<pre>` wrapper, leaving all
//! other content byte-for-byte unchanged.
//!
//! Documents are modelled as byte sequences addressed by byte offsets, since
//! the Markdown parser reports event spans as byte ranges into the source.


pub mod book;
pub mod buf;
pub mod escape;
pub mod events;
pub mod extract;
pub mod rewrite;
pub mod transform;

pub use book::Gabc;
pub use transform::add_gabc;
