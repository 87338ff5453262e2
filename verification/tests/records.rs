use tabfile::Record;

#[test]
fn empty_line_single_field() {
    let record = Record::new(String::new(), '\t');
    assert_eq!(record.len(), 1);
    assert_eq!(record.fields(), vec![""]);
    assert_eq!(record.line(), "");
}

#[test]
fn only_separators() {
    let record = Record::new(String::from("\t\t"), '\t');
    assert_eq!(record.len(), 3);
    assert_eq!(record.fields(), vec!["", "", ""]);
}

#[test]
fn leading_separator() {
    let record = Record::new(String::from("\tx"), '\t');
    assert_eq!(record.fields(), vec!["", "x"]);
}

#[test]
fn trailing_separator_before_newline() {
    let record = Record::new(String::from("x\t\n"), '\t');
    assert_eq!(record.fields(), vec!["x", ""]);
    assert_eq!(record.line(), "x\t\n");
}

#[test]
fn multibyte_separator() {
    let record = Record::new(String::from("a💣b💣c"), '💣');
    assert_eq!(record.fields(), vec!["a", "b", "c"]);
}

#[test]
fn non_bmp_content() {
    let record = Record::new(String::from("💣\tℝ is it?\n"), '\t');
    assert_eq!(record.fields(), vec!["💣", "ℝ is it?"]);
    assert_eq!(record.line(), "💣\tℝ is it?\n");
}

#[test]
fn carriage_return_ends_fields() {
    let record = Record::new(String::from("a\tb\rleftover"), '\t');
    assert_eq!(record.fields(), vec!["a", "b"]);
    assert_eq!(record.line(), "a\tb\rleftover");
}

#[test]
fn crlf_ends_fields() {
    let record = Record::new(String::from("a\tb\r\n"), '\t');
    assert_eq!(record.fields(), vec!["a", "b"]);
    assert_eq!(record.line(), "a\tb\r\n");
}

#[test]
fn no_trailing_newline() {
    let record = Record::new(String::from("a\tb"), '\t');
    assert_eq!(record.fields(), vec!["a", "b"]);
    assert_eq!(record.line(), "a\tb");
}

#[test]
fn newline_separator_wins_over_line_break() {
    // The separator is matched before the line-break check, so a newline
    // separator splits fields instead of ending the line.
    let record = Record::new(String::from("a\nb"), '\n');
    assert_eq!(record.fields(), vec!["a", "b"]);
}

#[test]
fn fields_len_matches_len() {
    let inputs = ["", "a", "a\tb\tc\n", "\t\t", "x\r\n"];
    for input in inputs.iter() {
        let record = Record::new(String::from(*input), '\t');
        assert_eq!(record.fields().len(), record.len());
        assert!(record.len() >= 1);
    }
}

#[test]
fn fields_stable_across_calls() {
    let record = Record::new(String::from("a\tb\tc\n"), '\t');
    let first = record.fields();
    let second = record.fields();
    assert_eq!(first, second);
    let third = record.fields();
    assert_eq!(first, third);
}

#[test]
fn join_restores_content() {
    let record = Record::new(String::from("a,b,,c"), ',');
    assert_eq!(record.fields().join(","), "a,b,,c");
    let with_newline = Record::new(String::from("a,b,,c\n"), ',');
    assert_eq!(with_newline.fields().join(","), "a,b,,c");
    assert_eq!(with_newline.line(), "a,b,,c\n");
}
