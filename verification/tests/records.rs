use bluetooth_tracker::jsonl::{format_jsonl, parse_jsonl_lines};

fn lines(contents: &str) -> Vec<(usize, String)> {
    parse_jsonl_lines(contents).into_iter().map(|line| (line.number, line.text)).collect()
}

#[test]
fn blank_lines_are_skipped_and_numbers_kept() {
    assert_eq!(
        lines("{\"a\":1}\n\n  \t\n{\"b\":2}\r\n{\"c\":3}"),
        vec![(1, "{\"a\":1}".to_owned()), (4, "{\"b\":2}".to_owned()), (5, "{\"c\":3}".to_owned())]
    );
    assert!(lines("").is_empty());
    assert!(lines("\n\n").is_empty());
    assert_eq!(lines("x\n"), vec![(1, "x".to_owned())]);
}

#[test]
fn records_are_written_one_per_line() {
    assert_eq!(format_jsonl(&Vec::new()), "");
    assert_eq!(format_jsonl(&vec!["{}".to_owned(), "{\"a\":1}".to_owned()]), "{}\n{\"a\":1}\n");
}

#[test]
fn written_records_read_back() {
    let records = vec!["{\"a\":1}".to_owned(), "{\"b\":2}".to_owned()];
    let text = format_jsonl(&records);
    let read: Vec<String> = parse_jsonl_lines(&text).into_iter().map(|line| line.text).collect();
    assert_eq!(read, records);
}
