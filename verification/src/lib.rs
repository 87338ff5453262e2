//! Line-oriented reading of separator-delimited text.
//!
//! A [`Tabfile`] bundles the tuning knobs for one delimited input: the field
//! separator, an optional comment character, a count of header lines to
//! discard unread, and whether blank lines are suppressed.  A
//! [`RowIterator`] applies those rules to raw lines one at a time, and every
//! surviving line becomes a [`Record`]: the original line paired with the
//! positions of its fields.
//!
//! The contracts are stated over a character-sequence model of the text: a
//! record's fields are exactly [`split_on`] of the line's content (the part
//! before its first line break), joining the fields with the separator
//! restores that content ([`lemma_fields_reassemble`]), and every raw line
//! of an input is accounted for exactly once ([`lemma_line_accounting`]).
//!
//! Reading from a file is left to a thin unverified layer; [`read_records`]
//! runs the same pipeline over an in-memory input.

mod filter;
mod model;
mod pipeline;
mod record;

pub use filter::LineClass;
pub use filter::RowIterator;
pub use filter::RowStep;
pub use filter::Tabfile;
pub use filter::classify_line;
pub use filter::is_comment_line;
pub use model::content_len;
pub use model::count_sep;
pub use model::ends_line;
pub use model::is_blank;
pub use model::is_space;
pub use model::join_with;
pub use model::lemma_fields_reassemble;
pub use model::lemma_split_on_count;
pub use model::lemma_split_on_len;
pub use model::lemma_split_round_trip;
pub use model::line_content;
pub use model::split_on;
pub use pipeline::count_in_class;
pub use pipeline::kept_lines;
pub use pipeline::lemma_header_count;
pub use pipeline::lemma_line_accounting;
pub use pipeline::lines_of;
pub use pipeline::read_records;
pub use pipeline::split_lines;
pub use record::Record;
