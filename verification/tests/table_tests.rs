use tablegrid::table::load_table;
use tablegrid::table::LoadError;

#[test]
fn loads_a_small_table() {
    let t = load_table(b"a,b\n1,2\n3,4\n").unwrap();
    assert_eq!(t.header, vec!["a".to_string(), "b".to_string()]);
    assert_eq!(
        t.rows,
        vec![
            vec!["1".to_string(), "2".to_string()],
            vec!["3".to_string(), "4".to_string()],
        ]
    );
    assert_eq!(t.ncols(), 2);
    assert_eq!(t.nrows(), 3);
}

#[test]
fn quoted_fields_are_decoded() {
    let t = load_table(b"a,b\n\"x,y\",2\n").unwrap();
    assert_eq!(t.rows[0][0], "x,y");
    assert_eq!(t.rows[0][1], "2");
}

#[test]
fn mismatched_row_lengths_fail_with_format_error() {
    let r = load_table(b"a,b,c\n1,2\n");
    assert!(matches!(r, Err(LoadError::Format(_))));
}

#[test]
fn empty_input_fails_with_empty_error() {
    let r = load_table(b"");
    assert!(matches!(r, Err(LoadError::Empty)));
}

#[test]
fn header_without_data_fails_with_empty_error() {
    let r = load_table(b"a,b,c\n");
    assert!(matches!(r, Err(LoadError::Empty)));
}
