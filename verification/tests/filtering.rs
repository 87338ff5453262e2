use tabfile::Tabfile;
use tabfile::read_records;

const FOUR_COLUMN: &str = "line noise\n\nfoo\tbar\tbaz\tquux\nalpha\tbeta\tgamma\tdelta\n\nLeonardo\tMichelangelo\tDonatello\tRaphael\n#please ignore me\nred\tyellow\tgreen";
const UNICODE: &str =
    "ä line with Ünicöde symböls\tmøre wørds tø ræd\néverything îs strànge\t💣ℝ is it?\n";
const EMPTY: &str = "\t\t\tleft\t\t\tright\t\t\t";

#[test]
fn four_column() {
    let tabfile = Tabfile::new().comment_character('#').skip_lines(2).separator('\t');
    let records = read_records(tabfile, FOUR_COLUMN);

    let mut iterations = 0;
    for (i, record) in records.iter().enumerate() {
        iterations += 1;
        let fields = record.fields();
        match i {
            0 => {
                assert_eq!(fields[0], "foo");
                assert_eq!(fields[1], "bar");
                assert_eq!(fields[2], "baz");
                assert_eq!(fields[3], "quux");
                assert_eq!(record.line(), "foo\tbar\tbaz\tquux\n");
                assert_eq!(record.len(), 4);
            }
            1 => {
                assert_eq!(fields[0], "alpha");
                assert_eq!(fields[1], "beta");
                assert_eq!(fields[2], "gamma");
                assert_eq!(fields[3], "delta");
                assert_eq!(record.len(), 4);
            }
            2 => {
                assert_eq!(fields[0], "Leonardo");
                assert_eq!(fields[1], "Michelangelo");
                assert_eq!(fields[2], "Donatello");
                assert_eq!(fields[3], "Raphael");
                assert_eq!(record.len(), 4);
            }
            3 => {
                assert_eq!(fields[0], "red");
                assert_eq!(fields[1], "yellow");
                assert_eq!(fields[2], "green");
                assert_eq!(record.line(), "red\tyellow\tgreen"); // no newline
                assert_eq!(record.len(), 3);
            }
            _ => assert!(false),
        }
    }
    assert_eq!(iterations, 4);
}

#[test]
fn unicode() {
    let tabfile = Tabfile::new();
    let records = read_records(tabfile, UNICODE);
    let mut iterations = 0;
    for (i, record) in records.iter().enumerate() {
        iterations += 1;
        let fields = record.fields();
        match i {
            0 => {
                assert_eq!(fields[0], "ä line with Ünicöde symböls");
                assert_eq!(fields[1], "møre wørds tø ræd");
                assert_eq!(record.len(), 2);
            }
            1 => {
                assert_eq!(fields[0], "éverything îs strànge");
                assert_eq!(fields[1], "💣ℝ is it?");
                assert_eq!(record.len(), 2);
            }
            _ => assert!(false),
        }
    }
    assert_eq!(iterations, 2);
}

#[test]
fn empty() {
    let tabfile = Tabfile::new().skip_empty_lines(false);
    let records = read_records(tabfile, EMPTY);
    let mut iterations = 0;
    for (i, record) in records.iter().enumerate() {
        iterations += 1;
        let fields = record.fields();
        match i {
            0 => {
                assert_eq!(fields[0], "");
                assert_eq!(fields[1], "");
                assert_eq!(fields[2], "");
                assert_eq!(fields[3], "left");
                assert_eq!(fields[4], "");
                assert_eq!(fields[5], "");
                assert_eq!(fields[6], "right");
                assert_eq!(fields[7], "");
                assert_eq!(fields[8], "");
                assert_eq!(fields[9], "");
                assert_eq!(record.len(), 10);
            }
            _ => assert!(false),
        }
    }
    assert_eq!(iterations, 1);
}

#[test]
fn comma_separator() {
    let records = read_records(Tabfile::new().separator(','), "a,b,c\n");
    assert_eq!(records.len(), 1);
    assert_eq!(records[0].fields(), vec!["a", "b", "c"]);
}

#[test]
fn header_skip_dominates_comment() {
    let tabfile = Tabfile::new().skip_lines(2).comment_character('#');
    let records = read_records(tabfile, "#hdr1\n#hdr2\nreal\tline\n");
    assert_eq!(records.len(), 1);
    assert_eq!(records[0].fields(), vec!["real", "line"]);
}

#[test]
fn blank_line_policy_toggle() {
    let records = read_records(Tabfile::new(), "a\n\nb\n");
    assert_eq!(records.len(), 2);
    assert_eq!(records[0].fields(), vec!["a"]);
    assert_eq!(records[1].fields(), vec!["b"]);

    let keep_blank = Tabfile::new().skip_empty_lines(false);
    let records = read_records(keep_blank, "a\n\nb\n");
    assert_eq!(records.len(), 3);
    assert_eq!(records[0].fields(), vec!["a"]);
    assert_eq!(records[1].fields(), vec![""]);
    assert_eq!(records[1].len(), 1);
    assert_eq!(records[2].fields(), vec!["b"]);
}

#[test]
fn all_comment_lines() {
    let records = read_records(Tabfile::new().comment_character('#'), "#a\n#b\n#c\n");
    assert_eq!(records.len(), 0);
}

#[test]
fn empty_input_yields_nothing() {
    let records = read_records(Tabfile::new(), "");
    assert_eq!(records.len(), 0);
}

#[test]
fn skip_beyond_input() {
    let records = read_records(Tabfile::new().skip_lines(5), "a\nb\n");
    assert_eq!(records.len(), 0);
}

#[test]
fn whitespace_only_line_is_blank() {
    let records = read_records(Tabfile::new(), "a\n \u{a0}\u{2003}\t\nb\n");
    assert_eq!(records.len(), 2);
    assert_eq!(records[0].fields(), vec!["a"]);
    assert_eq!(records[1].fields(), vec!["b"]);
}

#[test]
fn comment_check_wins_over_separator() {
    // A separator equal to the comment character is ambiguous at position
    // 0; the comment check fires first and the line is discarded.
    let tabfile = Tabfile::new().separator(',').comment_character(',');
    let records = read_records(tabfile, ",a,b\nplain\n");
    assert_eq!(records.len(), 1);
    assert_eq!(records[0].fields(), vec!["plain"]);
}

#[test]
fn record_count_matches_retained_lines() {
    // Six raw lines: one header skip, one comment, one blank, three kept.
    let input = "skipped header\n#comment\n\none\ntwo\tx\nthree";
    let records = read_records(Tabfile::new().skip_lines(1), input);
    assert_eq!(records.len(), 3);
    assert_eq!(records[0].fields(), vec!["one"]);
    assert_eq!(records[1].fields(), vec!["two", "x"]);
    assert_eq!(records[2].fields(), vec!["three"]);
}

#[test]
fn default_configuration_applies() {
    // Defaults: tab separator, '#' comments active, blanks skipped.
    let records = read_records(Tabfile::new(), "#note\nx\ty\n\n");
    assert_eq!(records.len(), 1);
    assert_eq!(records[0].fields(), vec!["x", "y"]);
}
