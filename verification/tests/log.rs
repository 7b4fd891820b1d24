use turtle_bag::log::{
    parse_flag, parse_line, parse_log, push_decimal, render_line, render_log, scan_exact, string_of,
    Fault, LogError, Record,
};

fn chars(s: &str) -> Vec<char> {
    s.chars().collect()
}

fn record(x: &str, y: &str, outside: bool) -> Record {
    Record::new(x, y, outside).unwrap()
}

#[test]
fn a_string_from_its_characters() {
    assert_eq!(string_of(&[]), "");
    assert_eq!(string_of(&chars("1.5e3")), "1.5e3");
    assert_eq!(string_of(&['a', '\u{3000}', 'b']), "a\u{3000}b");
}

#[test]
fn exact_words() {
    assert!(scan_exact(&chars("true"), "true"));
    assert!(!scan_exact(&chars("True"), "true"));
    assert!(!scan_exact(&chars("tru"), "true"));
    assert!(!scan_exact(&chars("truee"), "true"));
    assert!(scan_exact(&chars(""), ""));
}

#[test]
fn flags() {
    assert_eq!(parse_flag(&chars("true")), Some(true));
    assert_eq!(parse_flag(&chars("false")), Some(false));
    for s in ["", "True", "FALSE", "1", "0", "yes", "t", "truefalse", "false "] {
        assert_eq!(parse_flag(&chars(s)), None, "{:?}", s);
        assert!(s.parse::<bool>().is_err());
    }
}

#[test]
fn a_record_needs_two_numerals() {
    let r = record("1.5", "-2e3", true);
    assert_eq!(r.x(), "1.5");
    assert_eq!(r.y(), "-2e3");
    assert!(r.outside());
    assert!(Record::new("abc", "1", false).is_none());
    assert!(Record::new("1", "abc", false).is_none());
    assert!(Record::new("", "1", false).is_none());
    assert!(Record::new("1 ", "1", false).is_none());
    assert!(Record::new("1\n", "1", false).is_none());
    assert!(Record::new("NaN", "-inf", false).is_some());
}

#[test]
fn a_copy_of_a_record_equals_it() {
    let r = record("50", "50.25", false);
    assert_eq!(r.clone(), r);
}

#[test]
fn a_line_of_three_fields() {
    assert_eq!(parse_line(&chars("1.0 2.5 true")), Ok(record("1.0", "2.5", true)));
    assert_eq!(parse_line(&chars("  -1e3\t.5   false \r")), Ok(record("-1e3", ".5", false)));
    assert_eq!(parse_line(&chars("50 50 false")), Ok(record("50", "50", false)));
}

#[test]
fn a_line_with_another_number_of_fields() {
    for line in ["", "   ", "1.0", "1.0 2.0", "1.0 2.0 true false", "1.0 2.0 true 3", "a b c d"] {
        assert_eq!(parse_line(&chars(line)), Err(Fault::FieldCount), "{:?}", line);
    }
}

#[test]
fn a_line_with_a_bad_number() {
    assert_eq!(parse_line(&chars("abc 1.0 true")), Err(Fault::FirstNumber));
    assert_eq!(parse_line(&chars("1.0 abc true")), Err(Fault::SecondNumber));
    assert_eq!(parse_line(&chars("abc def ghi")), Err(Fault::FirstNumber));
    assert_eq!(parse_line(&chars("1.0 def ghi")), Err(Fault::SecondNumber));
    assert_eq!(parse_line(&chars("1,0 1.0 true")), Err(Fault::FirstNumber));
}

#[test]
fn a_line_with_a_bad_flag() {
    assert_eq!(parse_line(&chars("1.0 2.0 True")), Err(Fault::Flag));
    assert_eq!(parse_line(&chars("1.0 2.0 1")), Err(Fault::Flag));
    assert_eq!(parse_line(&chars("1.0 2.0 3.0")), Err(Fault::Flag));
}

#[test]
fn an_empty_log_holds_no_records() {
    assert_eq!(parse_log(""), Ok(vec![]));
}

#[test]
fn a_log_is_read_line_by_line() {
    let text = "50 50 false\n51 50 false\n101 50 true\n";
    assert_eq!(
        parse_log(text),
        Ok(vec![record("50", "50", false), record("51", "50", false), record("101", "50", true)])
    );
}

#[test]
fn the_last_line_may_lack_its_line_feed() {
    assert_eq!(parse_log("1 2 true\n3 4 false"), Ok(vec![record("1", "2", true), record("3", "4", false)]));
    assert_eq!(parse_log("1 2 true"), Ok(vec![record("1", "2", true)]));
}

#[test]
fn carriage_returns_are_white_space() {
    assert_eq!(parse_log("1 2 true\r\n3 4 false\r\n"), Ok(vec![record("1", "2", true), record("3", "4", false)]));
}

#[test]
fn malformed_line_is_an_error() {
    assert_eq!(parse_log("1.0 abc true"), Err(LogError { line: 1, fault: Fault::SecondNumber }));
    assert_eq!(parse_log("1.0 abc true\n"), Err(LogError { line: 1, fault: Fault::SecondNumber }));
    assert_eq!(
        parse_log("1.0 2.0 true\n1.0 abc true\n3.0 4.0 false\n"),
        Err(LogError { line: 2, fault: Fault::SecondNumber })
    );
}

#[test]
fn the_first_line_at_fault_is_named() {
    assert_eq!(parse_log("1 2 true\n\n3 4 false\n"), Err(LogError { line: 2, fault: Fault::FieldCount }));
    assert_eq!(parse_log("\n"), Err(LogError { line: 1, fault: Fault::FieldCount }));
    assert_eq!(parse_log("1 2 true\n3 4 maybe\nx y z\n"), Err(LogError { line: 2, fault: Fault::Flag }));
    assert_eq!(parse_log("x 2 true\n3 4 maybe\n"), Err(LogError { line: 1, fault: Fault::FirstNumber }));
    assert_eq!(parse_log("1 2 true\n3 4 false\n5 6\n"), Err(LogError { line: 3, fault: Fault::FieldCount }));
    assert_eq!(parse_log("1 2 true 3 4 false\n"), Err(LogError { line: 1, fault: Fault::FieldCount }));
}

#[test]
fn a_record_is_written_on_one_line() {
    assert_eq!(render_line(&record("1.5", "-2", true)), "1.5 -2 true\n");
    assert_eq!(render_line(&record("0", "0", false)), "0 0 false\n");
}

#[test]
fn a_log_is_written_in_order() {
    assert_eq!(render_log(&vec![]), "");
    assert_eq!(
        render_log(&vec![record("50", "50", false), record("60.5", "50", false), record("101", "50", true)]),
        "50 50 false\n60.5 50 false\n101 50 true\n"
    );
}

#[test]
fn what_is_written_reads_back() {
    let records = vec![
        record("50", "50", false),
        record("-0.5", "+1e10", false),
        record("inf", "NaN", true),
        record(".5", "5.", true),
    ];
    assert_eq!(parse_log(&render_log(&records)), Ok(records));
}

#[test]
fn doubles_survive_the_log() {
    let values = [
        (0.0, -0.0, false),
        (50.0, 50.0, false),
        (0.1 + 0.2, 1.0 / 3.0, false),
        (f64::MAX, f64::MIN_POSITIVE, true),
        (-1e-300, 5e-324, true),
        (123456.789e10, -98765.4321e-10, false),
    ];
    let records: Vec<Record> =
        values.iter().map(|(x, y, o)| record(&format!("{}", x), &format!("{}", y), *o)).collect();
    let read = parse_log(&render_log(&records)).unwrap();
    assert_eq!(read.len(), values.len());
    for (r, (x, y, o)) in read.iter().zip(values.iter()) {
        assert_eq!(r.x().parse::<f64>().unwrap().to_bits(), x.to_bits());
        assert_eq!(r.y().parse::<f64>().unwrap().to_bits(), y.to_bits());
        assert_eq!(r.outside(), *o);
    }
}

#[test]
fn an_error_names_its_line() {
    assert_eq!(LogError { line: 1, fault: Fault::SecondNumber }.describe(), "line 1: the second field is not a number");
    assert_eq!(LogError { line: 20, fault: Fault::FieldCount }.describe(), "line 20: expected three fields");
    assert_eq!(LogError { line: 305, fault: Fault::FirstNumber }.describe(), "line 305: the first field is not a number");
    assert_eq!(
        LogError { line: usize::MAX, fault: Fault::Flag }.describe(),
        format!("line {}: the third field is neither true nor false", usize::MAX)
    );
    assert_eq!(parse_log("1.0 abc true").unwrap_err().describe(), "line 1: the second field is not a number");
}

#[test]
fn numbers_in_decimal_digits() {
    for n in [0usize, 1, 9, 10, 11, 99, 100, 101, 1234567890, usize::MAX] {
        let mut text = String::from("n=");
        push_decimal(&mut text, n);
        assert_eq!(text, format!("n={}", n));
    }
}
