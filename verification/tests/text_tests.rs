use embedstore::text::{file_destination, parse_id_list, u64_dec};

#[test]
fn decimal_rendering() {
    assert_eq!(u64_dec(0), "0");
    assert_eq!(u64_dec(7), "7");
    assert_eq!(u64_dec(10), "10");
    assert_eq!(u64_dec(12345), "12345");
    assert_eq!(u64_dec(u64::MAX), "18446744073709551615");
}

#[test]
fn upload_destination_is_sanitized() {
    // Path separators in the upload name are removed, so the file cannot
    // escape the project's directory.
    let dest = file_destination(7, "../../etc/passwd");
    assert_eq!(dest, "./project_data/7/....etcpasswd");
    let dest = file_destination(12, "notes.txt");
    assert_eq!(dest, "./project_data/12/notes.txt");
}

#[test]
fn id_lists_parse() {
    assert_eq!(parse_id_list(b"1,2,3").unwrap(), vec![1, 2, 3]);
    assert_eq!(parse_id_list(b"12").unwrap(), vec![12]);
    assert_eq!(parse_id_list(b"0").unwrap(), vec![0]);
    assert_eq!(parse_id_list(b"").unwrap(), Vec::<i64>::new());
    assert_eq!(parse_id_list(b"9223372036854775807").unwrap(), vec![i64::MAX]);
}

#[test]
fn malformed_id_lists_are_rejected() {
    assert!(parse_id_list(b"1,,2").is_none());
    assert!(parse_id_list(b"a").is_none());
    assert!(parse_id_list(b"1,2,").is_none());
    assert!(parse_id_list(b",1").is_none());
    assert!(parse_id_list(b"01").is_none());
    assert!(parse_id_list(b"-1").is_none());
    // One past i64::MAX overflows.
    assert!(parse_id_list(b"9223372036854775808").is_none());
}
