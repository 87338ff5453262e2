//! Running a whole in-memory input through the filter.
//!
//! [`lines_of`] cuts an input into raw lines exactly the way a
//! line-oriented read delivers them, and [`read_records`] feeds those lines
//! through a [`RowIterator`], returning the records of the lines the filter
//! keeps.  [`lemma_line_accounting`] states the bookkeeping law: every line
//! is either discarded for exactly one reason or emitted.

use vstd::prelude::*;
use vstd::string::StrSliceExecFns;
use vstd::string::StringExecFns;

use crate::filter::LineClass;
use crate::filter::RowIterator;
use crate::filter::RowStep;
use crate::filter::Tabfile;
use crate::filter::classify_line;
use crate::model::line_content;
use crate::model::split_on;
use crate::record::Record;

verus! {

/// The input cut into raw lines: each `'\n'` ends a line and stays in it,
/// and a last fragment without `'\n'` is a line of its own.  An empty
/// input has no lines.
pub open spec fn split_lines(s: Seq<char>) -> Seq<Seq<char>>
    decreases s.len(),
{
    if s.len() == 0 {
        Seq::empty()
    } else if s[0] == '\n' {
        seq![seq!['\n']] + split_lines(s.drop_first())
    } else {
        let rest = split_lines(s.drop_first());
        if rest.len() == 0 {
            seq![seq![s[0]]]
        } else {
            seq![seq![s[0]] + rest[0]] + rest.drop_first()
        }
    }
}

/// A nonempty input without `'\n'` is a single line.
proof fn lemma_split_lines_no_nl(s: Seq<char>)
    requires
        s.len() > 0,
        forall|i: int| 0 <= i < s.len() ==> s[i] != '\n',
    ensures
        split_lines(s) == seq![s],
    decreases s.len(),
{
    if s.len() == 1 {
        assert(s.drop_first() =~= Seq::<char>::empty());
        assert(split_lines(Seq::<char>::empty()) == Seq::<Seq<char>>::empty());
        assert(split_lines(s) =~~= seq![s]);
    } else {
        assert forall|i: int| 0 <= i < s.drop_first().len() implies s.drop_first()[i] != '\n' by {
            assert(s.drop_first()[i] == s[i + 1]);
        }
        lemma_split_lines_no_nl(s.drop_first());
        assert(seq![s[0]] + s.drop_first() =~= s);
        assert(split_lines(s) =~~= seq![s]);
    }
}

/// Unfolding at the first `'\n'`: everything up to and including it is the
/// first line, and the rest splits on its own.
proof fn lemma_split_lines_first_nl(s: Seq<char>, j: int)
    requires
        0 <= j < s.len(),
        s[j] == '\n',
        forall|i: int| 0 <= i < j ==> s[i] != '\n',
    ensures
        split_lines(s) == seq![s.subrange(0, j + 1)] + split_lines(
            s.subrange(j + 1, s.len() as int),
        ),
    decreases j,
{
    if j == 0 {
        assert(seq!['\n'] =~= s.subrange(0, 1));
        assert(s.drop_first() =~= s.subrange(1, s.len() as int));
        assert(split_lines(s) =~~= seq![s.subrange(0, j + 1)] + split_lines(
            s.subrange(j + 1, s.len() as int),
        ));
    } else {
        let t = s.drop_first();
        assert forall|i: int| 0 <= i < j - 1 implies t[i] != '\n' by {
            assert(t[i] == s[i + 1]);
        }
        assert(t[j - 1] == s[j]);
        lemma_split_lines_first_nl(t, j - 1);
        let rest = split_lines(t);
        assert(rest[0] == t.subrange(0, j));
        assert(seq![s[0]] + t.subrange(0, j) =~= s.subrange(0, j + 1));
        assert(t.subrange(j, t.len() as int) =~= s.subrange(j + 1, s.len() as int));
        assert(split_lines(s) =~~= seq![s.subrange(0, j + 1)] + split_lines(
            s.subrange(j + 1, s.len() as int),
        ));
    }
}

/// The views of a sequence of owned lines.
spec fn views_of(v: Seq<String>) -> Seq<Seq<char>> {
    Seq::new(v.len(), |k: int| v[k]@)
}

/// Cut the input into raw lines, exactly as repeated line-oriented reads
/// would deliver them: each `'\n'` ends a line and stays in it, and a last
/// fragment without `'\n'` is a line of its own.
pub fn lines_of(input: &str) -> (r: Vec<String>)
    ensures
        r@.len() == split_lines(input@).len(),
        forall|k: int| 0 <= k < r@.len() ==> (#[trigger] r@[k])@ == split_lines(input@)[k],
{
    let ghost s: Seq<char> = input@;
    let n: usize = input.unicode_len();
    let mut result: Vec<String> = Vec::new();
    let mut start: usize = 0;
    let mut i: usize = 0;
    proof {
        assert(s.subrange(0, n as int) =~= s);
        assert(views_of(result@) + split_lines(s) =~= split_lines(s));
    }
    while i < n
        invariant
            s == input@,
            n == s.len(),
            start <= i <= n,
            forall|j: int| start <= j < i ==> s[j] != '\n',
            split_lines(s) == views_of(result@) + split_lines(s.subrange(start as int, n as int)),
        decreases n - i,
    {
        let c = input.get_char(i);
        if c == '\n' {
            proof {
                let rem = s.subrange(start as int, n as int);
                assert forall|q: int| 0 <= q < i - start implies rem[q] != '\n' by {
                    assert(rem[q] == s[start + q]);
                }
                assert(rem[i - start] == s[i as int]);
                lemma_split_lines_first_nl(rem, i - start);
                assert(rem.subrange(0, i - start + 1) =~= s.subrange(start as int, i + 1));
                assert(rem.subrange(i - start + 1, rem.len() as int) =~= s.subrange(
                    i + 1,
                    n as int,
                ));
            }
            let piece: String = String::from_str(input.substring_char(start, i + 1));
            proof {
                assert(views_of(result@.push(piece)) =~~= views_of(result@) + seq![
                    s.subrange(start as int, i + 1),
                ]);
            }
            result.push(piece);
            start = i + 1;
        }
        i = i + 1;
    }
    if start < n {
        proof {
            let rem = s.subrange(start as int, n as int);
            assert forall|q: int| 0 <= q < rem.len() implies rem[q] != '\n' by {
                assert(rem[q] == s[start + q]);
            }
            lemma_split_lines_no_nl(rem);
        }
        let piece: String = String::from_str(input.substring_char(start, n));
        proof {
            assert(views_of(result@.push(piece)) =~~= views_of(result@) + seq![
                s.subrange(start as int, n as int),
            ]);
        }
        result.push(piece);
        proof {
            assert(views_of(result@) =~= split_lines(s));
        }
    } else {
        proof {
            assert(s.subrange(start as int, n as int) =~= Seq::<char>::empty());
            assert(split_lines(Seq::<char>::empty()) == Seq::<Seq<char>>::empty());
            assert(views_of(result@) + Seq::<Seq<char>>::empty() =~= views_of(result@));
        }
    }
    proof {
        assert forall|k: int| 0 <= k < result@.len() implies (#[trigger] result@[k])@ == split_lines(
            input@,
        )[k] by {
            assert(views_of(result@)[k] == result@[k]@);
        }
    }
    result
}

/// How many header lines are still to be discarded after `consumed` reads.
spec fn remaining_skip(skip0: int, consumed: int) -> int {
    if skip0 - consumed > 0 {
        skip0 - consumed
    } else {
        0
    }
}

/// The lines the filter lets through, in order, starting with `skip_left`
/// header lines still to discard.
pub open spec fn kept_lines(
    comment: Option<char>,
    skip_empty: bool,
    skip_left: int,
    lines: Seq<Seq<char>>,
) -> Seq<Seq<char>>
    decreases lines.len(),
{
    if lines.len() == 0 {
        Seq::empty()
    } else {
        let cls = classify_line(comment, skip_empty, skip_left, lines[0]);
        let next_left = if skip_left > 0 {
            skip_left - 1
        } else {
            0
        };
        let rest = kept_lines(comment, skip_empty, next_left, lines.drop_first());
        if cls is Kept {
            seq![lines[0]] + rest
        } else {
            rest
        }
    }
}

/// One more line at the end of the input changes only the end of the
/// result: the new line comes through exactly when the filter, arrived at
/// it, classifies it as kept.
proof fn lemma_kept_lines_push(
    comment: Option<char>,
    skip_empty: bool,
    skip0: int,
    lines: Seq<Seq<char>>,
    x: Seq<char>,
)
    requires
        skip0 >= 0,
    ensures
        kept_lines(comment, skip_empty, skip0, lines.push(x)) == kept_lines(
            comment,
            skip_empty,
            skip0,
            lines,
        ) + (if classify_line(
            comment,
            skip_empty,
            remaining_skip(skip0, lines.len() as int),
            x,
        ) is Kept {
            seq![x]
        } else {
            Seq::<Seq<char>>::empty()
        }),
    decreases lines.len(),
{
    let tail = (if classify_line(
        comment,
        skip_empty,
        remaining_skip(skip0, lines.len() as int),
        x,
    ) is Kept {
        seq![x]
    } else {
        Seq::<Seq<char>>::empty()
    });
    let next_left = if skip0 > 0 {
        skip0 - 1
    } else {
        0
    };
    if lines.len() == 0 {
        assert(lines.push(x)[0] == x);
        assert(lines.push(x).drop_first() =~= Seq::<Seq<char>>::empty());
        assert(kept_lines(comment, skip_empty, next_left, Seq::<Seq<char>>::empty())
            == Seq::<Seq<char>>::empty());
        assert(remaining_skip(skip0, 0) == skip0);
        assert(kept_lines(comment, skip_empty, skip0, lines) == Seq::<Seq<char>>::empty());
        assert(kept_lines(comment, skip_empty, skip0, lines.push(x)) =~= kept_lines(
            comment,
            skip_empty,
            skip0,
            lines,
        ) + tail);
    } else {
        lemma_kept_lines_push(comment, skip_empty, next_left, lines.drop_first(), x);
        assert(lines.push(x)[0] == lines[0]);
        assert(lines.push(x).drop_first() =~= lines.drop_first().push(x));
        assert(remaining_skip(next_left, lines.drop_first().len() as int) == remaining_skip(
            skip0,
            lines.len() as int,
        ));
        let rest_push = kept_lines(comment, skip_empty, next_left, lines.drop_first().push(x));
        let rest = kept_lines(comment, skip_empty, next_left, lines.drop_first());
        assert(rest_push == rest + tail);
        if classify_line(comment, skip_empty, skip0, lines[0]) is Kept {
            assert(kept_lines(comment, skip_empty, skip0, lines.push(x)) == seq![lines[0]]
                + rest_push);
            assert(kept_lines(comment, skip_empty, skip0, lines) == seq![lines[0]] + rest);
            assert(seq![lines[0]] + (rest + tail) =~= (seq![lines[0]] + rest) + tail);
        } else {
            assert(kept_lines(comment, skip_empty, skip0, lines.push(x)) == rest_push);
            assert(kept_lines(comment, skip_empty, skip0, lines) == rest);
        }
    }
}

/// How many of the lines the filter puts in class `cls`.
pub open spec fn count_in_class(
    comment: Option<char>,
    skip_empty: bool,
    skip_left: int,
    lines: Seq<Seq<char>>,
    cls: LineClass,
) -> int
    decreases lines.len(),
{
    if lines.len() == 0 {
        0
    } else {
        let next_left = if skip_left > 0 {
            skip_left - 1
        } else {
            0
        };
        (if classify_line(comment, skip_empty, skip_left, lines[0]) == cls {
            1int
        } else {
            0int
        }) + count_in_class(comment, skip_empty, next_left, lines.drop_first(), cls)
    }
}

/// Every raw line is accounted for exactly once: the number of lines kept
/// is the number of lines minus those discarded by the header-skip counter,
/// minus those discarded as comments, minus those discarded as blank, in
/// that precedence order.
pub proof fn lemma_line_accounting(
    comment: Option<char>,
    skip_empty: bool,
    skip_left: int,
    lines: Seq<Seq<char>>,
)
    ensures
        kept_lines(comment, skip_empty, skip_left, lines).len() == lines.len() - count_in_class(
            comment,
            skip_empty,
            skip_left,
            lines,
            LineClass::Header,
        ) - count_in_class(comment, skip_empty, skip_left, lines, LineClass::Comment)
            - count_in_class(comment, skip_empty, skip_left, lines, LineClass::Blank),
    decreases lines.len(),
{
    if lines.len() == 0 {
    } else {
        let next_left = if skip_left > 0 {
            skip_left - 1
        } else {
            0
        };
        lemma_line_accounting(comment, skip_empty, next_left, lines.drop_first());
    }
}

/// The header-skip counter discards exactly as many lines as it was set
/// to, or the whole input when that runs out first.
pub proof fn lemma_header_count(
    comment: Option<char>,
    skip_empty: bool,
    skip_left: int,
    lines: Seq<Seq<char>>,
)
    requires
        skip_left >= 0,
    ensures
        count_in_class(comment, skip_empty, skip_left, lines, LineClass::Header) == (if skip_left
            <= lines.len() {
            skip_left
        } else {
            lines.len() as int
        }),
    decreases lines.len(),
{
    if lines.len() == 0 {
    } else {
        let next_left = if skip_left > 0 {
            skip_left - 1
        } else {
            0
        };
        lemma_header_count(comment, skip_empty, next_left, lines.drop_first());
    }
}

/// Feed a whole in-memory input through the filter: cut it into raw lines,
/// judge each in order, and return the records of the kept lines.
pub fn read_records(tabfile: Tabfile, input: &str) -> (r: Vec<Record>)
    ensures
        ({
            let kept = kept_lines(
                tabfile.spec_comment_character(),
                tabfile.spec_skip_empty_lines(),
                tabfile.spec_skip_lines(),
                split_lines(input@),
            );
            &&& r@.len() == kept.len()
            &&& forall|k: int|
                0 <= k < r@.len() ==> (#[trigger] r@[k]).wf() && r@[k].line_view() == kept[k]
                    && r@[k].fields_view() == split_on(
                    line_content(kept[k], tabfile.spec_separator()),
                    tabfile.spec_separator(),
                ) && r@[k].num_fields() == r@[k].fields_view().len() && r@[k].num_fields() >= 1
        }),
{
    let ghost comment: Option<char> = tabfile.spec_comment_character();
    let ghost skip_empty: bool = tabfile.spec_skip_empty_lines();
    let ghost skip0: int = tabfile.spec_skip_lines();
    let ghost sep: char = tabfile.spec_separator();
    let lines: Vec<String> = lines_of(input);
    let ghost lseq: Seq<Seq<char>> = split_lines(input@);
    proof {
        tabfile.lemma_skip_lines_nonneg();
    }
    let mut it = RowIterator::new(tabfile);
    let mut records: Vec<Record> = Vec::new();
    let n: usize = lines.len();
    let mut i: usize = 0;
    proof {
        assert(lseq.take(0) =~= Seq::<Seq<char>>::empty());
        assert(kept_lines(comment, skip_empty, skip0, Seq::<Seq<char>>::empty())
            == Seq::<Seq<char>>::empty());
        assert(remaining_skip(skip0, 0) == skip0);
    }
    while i < n
        invariant
            n == lines@.len(),
            i <= n,
            n == lseq.len(),
            skip0 >= 0,
            forall|k: int| 0 <= k < n ==> (#[trigger] lines@[k])@ == lseq[k],
            it.config().spec_separator() == sep,
            it.config().spec_comment_character() == comment,
            it.config().spec_skip_empty_lines() == skip_empty,
            it.config().spec_skip_lines() == remaining_skip(skip0, i as int),
            ({
                let kept = kept_lines(comment, skip_empty, skip0, lseq.take(i as int));
                &&& records@.len() == kept.len()
                &&& forall|k: int|
                    0 <= k < records@.len() ==> (#[trigger] records@[k]).wf()
                        && records@[k].line_view() == kept[k] && records@[k].fields_view()
                        == split_on(line_content(kept[k], sep), sep) && records@[k].num_fields()
                        == records@[k].fields_view().len() && records@[k].num_fields() >= 1
            }),
        decreases n - i,
    {
        let line: String = lines[i].clone();
        let step = it.next_row(line, false);
        proof {
            lemma_kept_lines_push(comment, skip_empty, skip0, lseq.take(i as int), lseq[i as int]);
            assert(lseq.take(i as int).push(lseq[i as int]) =~= lseq.take(i + 1));
        }
        match step {
            RowStep::Skipped => {
                proof {
                    let kept_now = kept_lines(comment, skip_empty, skip0, lseq.take(i + 1));
                    assert(kept_now =~= kept_lines(comment, skip_empty, skip0, lseq.take(i as int)));
                }
            },
            RowStep::Finished => {
                proof {
                    assert(false);
                }
            },
            RowStep::Row(rec) => {
                proof {
                    let kept_now = kept_lines(comment, skip_empty, skip0, lseq.take(i + 1));
                    assert(kept_now =~= kept_lines(comment, skip_empty, skip0, lseq.take(i as int))
                        + seq![lseq[i as int]]);
                }
                records.push(rec);
            },
        }
        i = i + 1;
    }
    proof {
        assert(lseq.take(n as int) =~= lseq);
    }
    records
}

} // verus!
