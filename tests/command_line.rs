use bbcpr::args::{parse_decimal, Args};

fn parse(words: &[&str]) -> Args {
    let args: Vec<String> = words.iter().map(|w| w.to_string()).collect();
    Args::parse(&args)
}

#[test]
fn defaults_without_arguments() {
    let a = parse(&["bbcpr"]);
    assert!(a.source.is_empty());
    assert_eq!(a.destination, "");
    assert_eq!(a.streams, 4);
    assert_eq!(a.verbose, 0);
    assert_eq!(a.compress_level, None);
    assert!(!a.version && !a.license && !a.help && !a.resume && !a.list_transfers);
}

#[test]
fn flags_and_values() {
    let a = parse(&["bbcpr", "-v", "-v", "-e", "-p", "-R", "-s", "16", "-c", "9", "--list-transfers", "-#"]);
    assert_eq!(a.verbose, 2);
    assert!(a.error_check && a.preserve && a.resume && a.list_transfers && a.version);
    assert_eq!(a.streams, 16);
    assert_eq!(a.compress_level, Some(9));
    let b = parse(&["bbcpr", "--version", "--license", "--help", "--resume"]);
    assert!(b.version && b.license && b.help && b.resume);
}

#[test]
fn bad_numbers_fall_back() {
    let a = parse(&["bbcpr", "-s", "lots", "-c", "300"]);
    assert_eq!(a.streams, 4);
    assert_eq!(a.compress_level, None);
    let b = parse(&["bbcpr", "-s", "+8", "-c", "-1"]);
    assert_eq!(b.streams, 8);
    assert_eq!(b.compress_level, None);
    let c = parse(&["bbcpr", "-s"]);
    assert_eq!(c.streams, 4);
}

#[test]
fn positional_paths() {
    let a = parse(&["bbcpr", "a", "b"]);
    assert_eq!(a.source, vec!["a".to_string()]);
    assert_eq!(a.destination, "b");
    let b = parse(&["bbcpr", "only"]);
    assert!(b.source.is_empty());
    assert_eq!(b.destination, "only");
    let c = parse(&["bbcpr", "a", "b", "c", "-x"]);
    assert_eq!(c.source, vec!["a".to_string(), "b".to_string()]);
    assert_eq!(c.destination, "c");
    let d = parse(&["bbcpr", "a", "-s", "2", "b", "c", "d"]);
    assert_eq!(d.source, vec!["a".to_string(), "b".to_string(), "c".to_string()]);
    assert_eq!(d.destination, "d");
    assert_eq!(d.streams, 2);
}

#[test]
fn decimal_numbers() {
    assert_eq!(parse_decimal("0", 10), Some(0));
    assert_eq!(parse_decimal("007", 10), Some(7));
    assert_eq!(parse_decimal("+42", 100), Some(42));
    assert_eq!(parse_decimal("4294967295", u32::MAX as u64), Some(4294967295));
    assert_eq!(parse_decimal("4294967296", u32::MAX as u64), None);
    assert_eq!(parse_decimal("18446744073709551616", u64::MAX), None);
    assert_eq!(parse_decimal("", 10), None);
    assert_eq!(parse_decimal("+", 10), None);
    assert_eq!(parse_decimal("1 ", 10), None);
    assert_eq!(parse_decimal("-1", 10), None);
    assert_eq!(parse_decimal("\u{661}", 10), None);
}
