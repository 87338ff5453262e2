//! The character-sequence model of a delimited line.
//!
//! A line is a `Seq<char>`.  Its *content* is everything before the first
//! line break; the content splits at every occurrence of the separator into
//! one or more fields, and joining the fields with the separator restores
//! the content exactly.

use vstd::prelude::*;

verus! {

/// A character that ends a line's content.  The separator is checked first
/// when a line is scanned, so a separator equal to `'\n'` or `'\r'` never
/// acts as a line break.
pub open spec fn ends_line(c: char, sep: char) -> bool {
    (c == '\n' || c == '\r') && c != sep
}

/// Number of characters of `s` before its first line break, or `s.len()`
/// when no line break occurs.
pub open spec fn content_len(s: Seq<char>, sep: char) -> int
    decreases s.len(),
{
    if s.len() == 0 {
        0
    } else if ends_line(s[0], sep) {
        0
    } else {
        1 + content_len(s.drop_first(), sep)
    }
}

/// The content of a line: everything before its first line break.
pub open spec fn line_content(s: Seq<char>, sep: char) -> Seq<char> {
    s.subrange(0, content_len(s, sep))
}

/// `content_len` marks the first line break: everything before it is an
/// ordinary character, and when it lies inside `s` it points at a break.
pub proof fn lemma_content_len_bounds(s: Seq<char>, sep: char)
    ensures
        0 <= content_len(s, sep) <= s.len(),
        forall|i: int| 0 <= i < content_len(s, sep) ==> !ends_line(s[i], sep),
        content_len(s, sep) < s.len() ==> ends_line(s[content_len(s, sep)], sep),
    decreases s.len(),
{
    if s.len() == 0 {
    } else if ends_line(s[0], sep) {
    } else {
        lemma_content_len_bounds(s.drop_first(), sep);
        assert forall|i: int| 0 <= i < content_len(s, sep) implies !ends_line(s[i], sep) by {
            if i > 0 {
                assert(s.drop_first()[i - 1] == s[i]);
            }
        }
        if content_len(s, sep) < s.len() {
            assert(s.drop_first()[content_len(s, sep) - 1] == s[content_len(s, sep)]);
        }
    }
}

/// The characterization in the other direction: a position with no break
/// before it that either sits on a break or at the end is `content_len`.
pub proof fn lemma_content_len_is(s: Seq<char>, sep: char, n: int)
    requires
        0 <= n <= s.len(),
        forall|i: int| 0 <= i < n ==> !ends_line(s[i], sep),
        n < s.len() ==> ends_line(s[n], sep),
    ensures
        content_len(s, sep) == n,
    decreases s.len(),
{
    if s.len() == 0 {
    } else if ends_line(s[0], sep) {
        assert(n == 0);
    } else {
        assert(n >= 1);
        assert forall|i: int| 0 <= i < n - 1 implies !ends_line(s.drop_first()[i], sep) by {
            assert(s.drop_first()[i] == s[i + 1]);
        }
        if n - 1 < s.drop_first().len() {
            assert(s.drop_first()[n - 1] == s[n]);
        }
        lemma_content_len_is(s.drop_first(), sep, n - 1);
    }
}

/// The fields of `s` when it is cut at every occurrence of `sep`: one more
/// field than there are separators, in order, each possibly empty.
pub open spec fn split_on(s: Seq<char>, sep: char) -> Seq<Seq<char>>
    decreases s.len(),
{
    if s.len() == 0 {
        seq![Seq::<char>::empty()]
    } else if s[0] == sep {
        seq![Seq::<char>::empty()] + split_on(s.drop_first(), sep)
    } else {
        let rest = split_on(s.drop_first(), sep);
        seq![seq![s[0]] + rest[0]] + rest.drop_first()
    }
}

/// Splitting always yields at least one field, even on an empty sequence.
pub proof fn lemma_split_on_len(s: Seq<char>, sep: char)
    ensures
        split_on(s, sep).len() >= 1,
    decreases s.len(),
{
    if s.len() == 0 {
    } else if s[0] == sep {
        lemma_split_on_len(s.drop_first(), sep);
    } else {
        lemma_split_on_len(s.drop_first(), sep);
    }
}

/// How many characters of `s` equal `sep`.
pub open spec fn count_sep(s: Seq<char>, sep: char) -> int
    decreases s.len(),
{
    if s.len() == 0 {
        0
    } else {
        (if s[0] == sep {
            1int
        } else {
            0int
        }) + count_sep(s.drop_first(), sep)
    }
}

/// There is exactly one more field than there are separators.
pub proof fn lemma_split_on_count(s: Seq<char>, sep: char)
    ensures
        split_on(s, sep).len() == 1 + count_sep(s, sep),
    decreases s.len(),
{
    if s.len() == 0 {
    } else {
        lemma_split_on_count(s.drop_first(), sep);
        lemma_split_on_len(s.drop_first(), sep);
    }
}

/// A sequence free of the separator is a single field.
pub proof fn lemma_split_on_no_sep(s: Seq<char>, sep: char)
    requires
        forall|i: int| 0 <= i < s.len() ==> s[i] != sep,
    ensures
        split_on(s, sep) == seq![s],
    decreases s.len(),
{
    if s.len() == 0 {
        assert(split_on(s, sep) =~~= seq![s]);
    } else {
        assert forall|i: int| 0 <= i < s.drop_first().len() implies s.drop_first()[i] != sep by {
            assert(s.drop_first()[i] == s[i + 1]);
        }
        lemma_split_on_no_sep(s.drop_first(), sep);
        assert(seq![s[0]] + s.drop_first() =~= s);
        assert(split_on(s, sep) =~~= seq![s]);
    }
}

/// Unfolding at the first separator: the part before it is the first field,
/// and the rest splits on its own.
pub proof fn lemma_split_on_first_sep(s: Seq<char>, sep: char, j: int)
    requires
        0 <= j < s.len(),
        s[j] == sep,
        forall|i: int| 0 <= i < j ==> s[i] != sep,
    ensures
        split_on(s, sep) == seq![s.subrange(0, j)] + split_on(s.subrange(j + 1, s.len() as int), sep),
    decreases j,
{
    if j == 0 {
        assert(s.subrange(0, 0) =~= Seq::<char>::empty());
        assert(s.subrange(1, s.len() as int) =~= s.drop_first());
        assert(split_on(s, sep) =~~= seq![s.subrange(0, j)] + split_on(
            s.subrange(j + 1, s.len() as int),
            sep,
        ));
    } else {
        let t = s.drop_first();
        assert forall|i: int| 0 <= i < j - 1 implies t[i] != sep by {
            assert(t[i] == s[i + 1]);
        }
        assert(t[j - 1] == s[j]);
        lemma_split_on_first_sep(t, sep, j - 1);
        let rest = split_on(t, sep);
        assert(rest[0] == t.subrange(0, j - 1));
        assert(seq![s[0]] + t.subrange(0, j - 1) =~= s.subrange(0, j));
        assert(t.subrange(j, t.len() as int) =~= s.subrange(j + 1, s.len() as int));
        assert(rest.drop_first() == split_on(s.subrange(j + 1, s.len() as int), sep));
        assert(split_on(s, sep) =~~= seq![s.subrange(0, j)] + split_on(
            s.subrange(j + 1, s.len() as int),
            sep,
        ));
    }
}

/// The fields interleaved with the separator again, in order.
pub open spec fn join_with(fields: Seq<Seq<char>>, sep: char) -> Seq<char>
    decreases fields.len(),
{
    if fields.len() == 0 {
        Seq::empty()
    } else if fields.len() == 1 {
        fields[0]
    } else {
        fields[0] + seq![sep] + join_with(fields.drop_first(), sep)
    }
}

/// Joining the split of any sequence restores the sequence.
pub proof fn lemma_join_split(s: Seq<char>, sep: char)
    ensures
        join_with(split_on(s, sep), sep) == s,
    decreases s.len(),
{
    if s.len() == 0 {
        assert(join_with(split_on(s, sep), sep) =~= s);
    } else if s[0] == sep {
        lemma_join_split(s.drop_first(), sep);
        lemma_split_on_len(s.drop_first(), sep);
        let rest = split_on(s.drop_first(), sep);
        let whole = seq![Seq::<char>::empty()] + rest;
        assert(whole.drop_first() =~= rest);
        assert(whole[0] + seq![sep] + join_with(rest, sep) =~= s);
    } else {
        lemma_join_split(s.drop_first(), sep);
        lemma_split_on_len(s.drop_first(), sep);
        let rest = split_on(s.drop_first(), sep);
        let whole = seq![seq![s[0]] + rest[0]] + rest.drop_first();
        if rest.len() == 1 {
            assert(join_with(rest, sep) == rest[0]);
            assert(whole.len() == 1);
            assert(join_with(whole, sep) == seq![s[0]] + rest[0]);
            assert(seq![s[0]] + s.drop_first() =~= s);
        } else {
            assert(whole.drop_first() =~= rest.drop_first());
            assert(join_with(whole, sep) == (seq![s[0]] + rest[0]) + seq![sep] + join_with(
                rest.drop_first(),
                sep,
            ));
            assert(join_with(rest, sep) == rest[0] + seq![sep] + join_with(rest.drop_first(), sep));
            assert((seq![s[0]] + rest[0]) + seq![sep] + join_with(rest.drop_first(), sep) =~= seq![
                s[0],
            ] + (rest[0] + seq![sep] + join_with(rest.drop_first(), sep)));
            assert(seq![s[0]] + s.drop_first() =~= s);
        }
    }
}

/// Joining a line's fields with the separator restores the line's content,
/// which is a prefix of the line itself.
pub proof fn lemma_fields_reassemble(s: Seq<char>, sep: char)
    ensures
        join_with(split_on(line_content(s, sep), sep), sep) == line_content(s, sep),
        0 <= content_len(s, sep) <= s.len(),
        line_content(s, sep) == s.subrange(0, content_len(s, sep)),
    {
    lemma_content_len_bounds(s, sep);
    lemma_join_split(line_content(s, sep), sep);
}

/// For a line without `'\r'` or `'\n'`, splitting and rejoining restores
/// the whole line.
pub proof fn lemma_split_round_trip(s: Seq<char>, sep: char)
    requires
        forall|i: int| 0 <= i < s.len() ==> s[i] != '\n' && s[i] != '\r',
    ensures
        join_with(split_on(s, sep), sep) == s,
        line_content(s, sep) == s,
{
    lemma_content_len_is(s, sep, s.len() as int);
    assert(line_content(s, sep) =~= s);
    lemma_join_split(s, sep);
}

/// Unicode white space: the characters carrying the `White_Space` property.
pub open spec fn is_space(c: char) -> bool {
    let u = c as u32;
    (0x9 <= u && u <= 0xd) || u == 0x20 || u == 0x85 || u == 0xa0 || u == 0x1680 || (0x2000 <= u
        && u <= 0x200a) || u == 0x2028 || u == 0x2029 || u == 0x202f || u == 0x205f || u == 0x3000
}

/// A blank line: every character is white space (an empty line is blank).
pub open spec fn is_blank(s: Seq<char>) -> bool {
    forall|i: int| 0 <= i < s.len() ==> is_space(s[i])
}

} // verus!
