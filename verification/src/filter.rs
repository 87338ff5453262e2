//! The configuration handle and the line filter.
//!
//! A [`Tabfile`] bundles the tuning knobs for one delimited input.  A
//! [`RowIterator`] owns a `Tabfile` and judges raw lines one at a time,
//! with a fixed precedence: the header-skip counter fires first, then end
//! of input, then the comment check, then the blank check; only a line that
//! passes all four becomes a [`Record`].

use vstd::prelude::*;
use vstd::string::StrSliceExecFns;

use crate::model::is_blank;
use crate::model::is_space;
use crate::model::line_content;
use crate::model::split_on;
use crate::record::Record;

verus! {

/// The tuning knobs for one delimited input: the field separator, the
/// optional comment character, how many leading lines to discard unread,
/// and whether blank lines are suppressed.
pub struct Tabfile {
    separator: char,
    comment_character: Option<char>,
    skip_lines: usize,
    skip_empty_lines: bool,
}

impl Tabfile {
    /// The configured field separator.
    pub closed spec fn spec_separator(&self) -> char {
        self.separator
    }

    /// The configured comment character, when comment filtering is active.
    pub closed spec fn spec_comment_character(&self) -> Option<char> {
        self.comment_character
    }

    /// How many leading lines are still to be discarded unread.
    pub closed spec fn spec_skip_lines(&self) -> int {
        self.skip_lines as int
    }

    /// Whether blank lines are suppressed.
    pub closed spec fn spec_skip_empty_lines(&self) -> bool {
        self.skip_empty_lines
    }

    /// The header-skip counter is a machine-word count and never negative.
    pub proof fn lemma_skip_lines_nonneg(&self)
        ensures
            self.spec_skip_lines() >= 0,
    {
    }

    /// The default configuration: tab-separated fields, lines starting with
    /// `'#'` treated as comments, no header lines skipped, blank lines
    /// suppressed.
    pub fn new() -> (r: Tabfile)
        ensures
            r.spec_separator() == '\t',
            r.spec_comment_character() == Some('#'),
            r.spec_skip_lines() == 0,
            r.spec_skip_empty_lines() == true,
    {
        Tabfile {
            separator: '\t',
            comment_character: Some('#'),
            skip_lines: 0,
            skip_empty_lines: true,
        }
    }

    /// Set the field separator.  The default is `'\t'`.
    pub fn separator(self, sep: char) -> (r: Tabfile)
        ensures
            r.spec_separator() == sep,
            r.spec_comment_character() == self.spec_comment_character(),
            r.spec_skip_lines() == self.spec_skip_lines(),
            r.spec_skip_empty_lines() == self.spec_skip_empty_lines(),
    {
        Tabfile { separator: sep, ..self }
    }

    /// Set how many leading lines are discarded unread.  The default is 0.
    /// These lines are consumed before any content inspection, so a comment
    /// or blank line among them still counts.
    pub fn skip_lines(self, num_lines: usize) -> (r: Tabfile)
        ensures
            r.spec_separator() == self.spec_separator(),
            r.spec_comment_character() == self.spec_comment_character(),
            r.spec_skip_lines() == num_lines,
            r.spec_skip_empty_lines() == self.spec_skip_empty_lines(),
    {
        Tabfile { skip_lines: num_lines, ..self }
    }

    /// Set the comment character: every line whose first character equals
    /// it is discarded.  The default is `'#'`.
    pub fn comment_character(self, comment_character: char) -> (r: Tabfile)
        ensures
            r.spec_separator() == self.spec_separator(),
            r.spec_comment_character() == Some(comment_character),
            r.spec_skip_lines() == self.spec_skip_lines(),
            r.spec_skip_empty_lines() == self.spec_skip_empty_lines(),
    {
        Tabfile { comment_character: Some(comment_character), ..self }
    }

    /// Choose whether lines holding only white space are discarded.  The
    /// default is `true`.
    pub fn skip_empty_lines(self, skip: bool) -> (r: Tabfile)
        ensures
            r.spec_separator() == self.spec_separator(),
            r.spec_comment_character() == self.spec_comment_character(),
            r.spec_skip_lines() == self.spec_skip_lines(),
            r.spec_skip_empty_lines() == skip,
    {
        Tabfile { skip_empty_lines: skip, ..self }
    }
}

/// A line whose first character is the configured comment character.  With
/// no comment character configured, no line is a comment.
pub open spec fn is_comment_line(s: Seq<char>, comment: Option<char>) -> bool {
    match comment {
        Some(c) => s.len() > 0 && s[0] == c,
        None => false,
    }
}

/// What the filter does with one raw line.
pub enum LineClass {
    /// Discarded unread by the header-skip counter.
    Header,
    /// Discarded because its first character is the comment character.
    Comment,
    /// Discarded because it holds only white space.
    Blank,
    /// Passed through to record construction.
    Kept,
}

/// The filter's ruling on one raw line, given how many header lines are
/// still to be discarded.  The header-skip counter fires first, then the
/// comment check, then the blank check.
pub open spec fn classify_line(
    comment: Option<char>,
    skip_empty: bool,
    skip_left: int,
    s: Seq<char>,
) -> LineClass {
    if skip_left > 0 {
        LineClass::Header
    } else if is_comment_line(s, comment) {
        LineClass::Comment
    } else if skip_empty && is_blank(s) {
        LineClass::Blank
    } else {
        LineClass::Kept
    }
}

/// What one step of iteration produced.
pub enum RowStep {
    /// The line was discarded; ask for the next one.
    Skipped,
    /// The input is exhausted; nothing further will be emitted.
    Finished,
    /// The line survived the filter and became a record.
    Row(Record),
}

/// The filter's working state: the configuration, whose header-skip counter
/// counts down as leading lines are consumed.
pub struct RowIterator {
    tabfile: Tabfile,
}

impl RowIterator {
    /// The current configuration, counter included.
    pub closed spec fn config(&self) -> Tabfile {
        self.tabfile
    }

    /// Take ownership of the configuration; tuning ends here.
    pub fn new(tabfile: Tabfile) -> (r: RowIterator)
        ensures
            r.config() == tabfile,
    {
        RowIterator { tabfile }
    }

    /// Judge one raw line.  `end_of_input` reports that the read returned
    /// no bytes, in which case `line` is empty.
    ///
    /// The header-skip counter fires even at end of input: it counts down
    /// once per read until it is drained, and only then does the end of the
    /// input finish the iteration.
    pub fn next_row(&mut self, line: String, end_of_input: bool) -> (r: RowStep)
        ensures
            final(self).config().spec_separator() == old(self).config().spec_separator(),
            final(self).config().spec_comment_character() == old(
                self,
            ).config().spec_comment_character(),
            final(self).config().spec_skip_empty_lines() == old(
                self,
            ).config().spec_skip_empty_lines(),
            final(self).config().spec_skip_lines() == (if old(self).config().spec_skip_lines() > 0 {
                old(self).config().spec_skip_lines() - 1
            } else {
                0
            }),
            old(self).config().spec_skip_lines() > 0 ==> r is Skipped,
            old(self).config().spec_skip_lines() == 0 && end_of_input ==> r is Finished,
            old(self).config().spec_skip_lines() == 0 && !end_of_input ==> {
                let cls = classify_line(
                    old(self).config().spec_comment_character(),
                    old(self).config().spec_skip_empty_lines(),
                    0,
                    line@,
                );
                &&& (cls is Comment ==> r is Skipped)
                &&& (cls is Blank ==> r is Skipped)
                &&& (cls is Kept ==> r is Row)
                &&& (r matches RowStep::Row(rec) ==> rec.wf() && rec.line_view() == line@
                    && rec.fields_view() == split_on(
                    line_content(line@, old(self).config().spec_separator()),
                    old(self).config().spec_separator(),
                ) && rec.num_fields() == rec.fields_view().len() && rec.num_fields() >= 1)
            },
    {
        if self.tabfile.skip_lines > 0 {
            self.tabfile.skip_lines = self.tabfile.skip_lines - 1;
            RowStep::Skipped
        } else if end_of_input {
            RowStep::Finished
        } else if starts_with_comment(line.as_str(), self.tabfile.comment_character) {
            RowStep::Skipped
        } else if self.tabfile.skip_empty_lines && is_blank_str(line.as_str()) {
            RowStep::Skipped
        } else {
            RowStep::Row(Record::new(line, self.tabfile.separator))
        }
    }
}

/// Whether the line's first character is the configured comment character.
fn starts_with_comment(line: &str, comment: Option<char>) -> (r: bool)
    ensures
        r == is_comment_line(line@, comment),
{
    match comment {
        Some(c) => line.unicode_len() > 0 && line.get_char(0) == c,
        None => false,
    }
}

/// Whether the line holds only white space.
fn is_blank_str(line: &str) -> (r: bool)
    ensures
        r == is_blank(line@),
{
    let n: usize = line.unicode_len();
    let mut i: usize = 0;
    while i < n
        invariant
            n == line@.len(),
            i <= n,
            forall|j: int| 0 <= j < i ==> is_space(line@[j]),
        decreases n - i,
    {
        let c = line.get_char(i);
        let u: u32 = c as u32;
        if !((0x9 <= u && u <= 0xd) || u == 0x20 || u == 0x85 || u == 0xa0 || u == 0x1680 || (0x2000
            <= u && u <= 0x200a) || u == 0x2028 || u == 0x2029 || u == 0x202f || u == 0x205f || u
            == 0x3000) {
            proof {
                assert(!is_space(line@[i as int]));
            }
            return false;
        }
        i = i + 1;
    }
    true
}

} // verus!
