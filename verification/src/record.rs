//! One line of delimited text together with the positions of its fields.

use vstd::prelude::*;
use vstd::string::StrSliceExecFns;

use crate::model::content_len;
use crate::model::ends_line;
use crate::model::lemma_content_len_bounds;
use crate::model::lemma_content_len_is;
use crate::model::lemma_split_on_first_sep;
use crate::model::lemma_split_on_len;
use crate::model::lemma_split_on_no_sep;
use crate::model::line_content;
use crate::model::split_on;

verus! {

/// The field substrings that a list of `[start, end)` character ranges cuts
/// out of a line.
spec fn ranges_fields(s: Seq<char>, ranges: Seq<(usize, usize)>) -> Seq<Seq<char>> {
    Seq::new(ranges.len(), |k: int| s.subrange(ranges[k].0 as int, ranges[k].1 as int))
}

/// One line from a delimited file.
///
/// A `Record` owns the raw line exactly as the reader delivered it, trailing
/// line break included, and an ordered list of character ranges marking the
/// fields of the line's content.  It stays valid on its own once built.
pub struct Record {
    line: String,
    ranges: Vec<(usize, usize)>,
}

impl Record {
    /// The stored line, as a character sequence.
    pub closed spec fn line_view(&self) -> Seq<char> {
        self.line@
    }

    /// The stored fields, each a character sequence.
    pub closed spec fn fields_view(&self) -> Seq<Seq<char>> {
        ranges_fields(self.line@, self.ranges@)
    }

    /// The number of stored fields.
    pub closed spec fn num_fields(&self) -> int {
        self.ranges@.len() as int
    }

    /// Every range lies inside the line, and there is at least one.
    pub closed spec fn wf(&self) -> bool {
        &&& self.ranges@.len() >= 1
        &&& forall|k: int|
            0 <= k < self.ranges@.len() ==> (#[trigger] self.ranges@[k]).0 <= self.ranges@[k].1
                <= self.line@.len()
    }

    /// Build a record from one raw line: walk the line once, cut a field at
    /// every separator, and stop at the first line break.  The line break
    /// stays in the stored line but in no field.  There is always at least
    /// one field, even on an empty line.
    pub fn new(line: String, separator: char) -> (r: Record)
        ensures
            r.wf(),
            r.line_view() == line@,
            r.fields_view() == split_on(line_content(line@, separator), separator),
            r.num_fields() == split_on(line_content(line@, separator), separator).len(),
            r.num_fields() >= 1,
    {
        let ghost s: Seq<char> = line@;
        let n: usize = line.as_str().unicode_len();
        let mut ranges: Vec<(usize, usize)> = Vec::new();
        let mut slice_start: usize = 0;
        let mut i: usize = 0;
        let mut seen_break: bool = false;
        while i < n && !seen_break
            invariant
                s == line@,
                n == s.len(),
                i <= n,
                slice_start <= i,
                forall|k: int|
                    0 <= k < ranges@.len() ==> (#[trigger] ranges@[k]).0 <= ranges@[k].1 <= i,
                !seen_break ==> forall|j: int| 0 <= j < i ==> !ends_line(s[j], separator),
                !seen_break ==> forall|j: int| slice_start <= j < i ==> s[j] != separator,
                !seen_break ==> split_on(line_content(s, separator), separator) == ranges_fields(
                    s,
                    ranges@,
                ) + split_on(s.subrange(slice_start as int, content_len(s, separator)), separator),
                seen_break ==> ranges_fields(s, ranges@) == split_on(
                    line_content(s, separator),
                    separator,
                ),
                seen_break ==> ranges@.len() >= 1,
            decreases n - i + (if seen_break { 0int } else { 1int }),
        {
            let c = line.as_str().get_char(i);
            if c == separator {
                proof {
                    lemma_content_len_bounds(s, separator);
                    if content_len(s, separator) <= i {
                        assert(ends_line(s[content_len(s, separator)], separator));
                        assert(false);
                    }
                    let rem = s.subrange(slice_start as int, content_len(s, separator));
                    assert forall|q: int| 0 <= q < i - slice_start implies rem[q] != separator by {
                        assert(rem[q] == s[slice_start + q]);
                    }
                    assert(rem[i - slice_start] == s[i as int]);
                    lemma_split_on_first_sep(rem, separator, i - slice_start);
                    assert(rem.subrange(0, i - slice_start) =~= s.subrange(
                        slice_start as int,
                        i as int,
                    ));
                    assert(rem.subrange(i - slice_start + 1, rem.len() as int) =~= s.subrange(
                        i + 1,
                        content_len(s, separator),
                    ));
                    assert(ranges_fields(s, ranges@.push((slice_start, i))) =~~= ranges_fields(
                        s,
                        ranges@,
                    ) + seq![s.subrange(slice_start as int, i as int)]);
                }
                ranges.push((slice_start, i));
                slice_start = i + 1;
                i = i + 1;
            } else if c == '\n' || c == '\r' {
                proof {
                    assert(ends_line(s[i as int], separator));
                    lemma_content_len_is(s, separator, i as int);
                    let rem = s.subrange(slice_start as int, i as int);
                    assert forall|q: int| 0 <= q < rem.len() implies rem[q] != separator by {
                        assert(rem[q] == s[slice_start + q]);
                    }
                    lemma_split_on_no_sep(rem, separator);
                    assert(ranges_fields(s, ranges@.push((slice_start, i))) =~~= ranges_fields(
                        s,
                        ranges@,
                    ) + seq![rem]);
                }
                ranges.push((slice_start, i));
                seen_break = true;
            } else {
                i = i + 1;
            }
        }
        if !seen_break {
            proof {
                lemma_content_len_is(s, separator, n as int);
                let rem = s.subrange(slice_start as int, n as int);
                assert forall|q: int| 0 <= q < rem.len() implies rem[q] != separator by {
                    assert(rem[q] == s[slice_start + q]);
                }
                lemma_split_on_no_sep(rem, separator);
                assert(ranges_fields(s, ranges@.push((slice_start, n))) =~~= ranges_fields(
                    s,
                    ranges@,
                ) + seq![rem]);
            }
            ranges.push((slice_start, n));
        }
        proof {
            lemma_split_on_len(line_content(s, separator), separator);
        }
        Record { line, ranges }
    }

    /// The separated fields of the line, one fresh slice per field, each
    /// borrowed from the record's own buffer.
    pub fn fields(&self) -> (r: Vec<&str>)
        requires
            self.wf(),
        ensures
            r@.len() == self.num_fields(),
            forall|k: int| 0 <= k < r@.len() ==> (#[trigger] r@[k])@ == self.fields_view()[k],
    {
        let mut result: Vec<&str> = Vec::new();
        let n: usize = self.ranges.len();
        let mut k: usize = 0;
        while k < n
            invariant
                self.wf(),
                n == self.ranges@.len(),
                k <= n,
                result@.len() == k,
                forall|q: int|
                    0 <= q < k ==> (#[trigger] result@[q])@ == self.fields_view()[q],
            decreases n - k,
        {
            let (a, b): (usize, usize) = self.ranges[k];
            result.push(self.line.as_str().substring_char(a, b));
            k = k + 1;
        }
        result
    }

    /// The original line, unchanged, trailing line break included.
    pub fn line(&self) -> (r: &str)
        ensures
            r@ == self.line_view(),
    {
        self.line.as_str()
    }

    /// The number of fields; at least one for any record built by `new`.
    pub fn len(&self) -> (r: usize)
        ensures
            r == self.num_fields(),
    {
        self.ranges.len()
    }
}

} // verus!
