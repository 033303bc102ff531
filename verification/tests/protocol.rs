use dotmatrix_fileprinter::protocol::{data_fragment, execution_directive};

#[test]
fn fragment_declares_the_bytes_in_order() {
    assert_eq!(
        data_fragment(&[72, 101, 108, 108, 111]),
        "\\ Auto-generated strike data\nCREATE STRIKE-DATA 72 , 101 , 108 , 108 , 111 , \n"
    );
}

#[test]
fn fragment_of_an_empty_buffer_declares_an_empty_array() {
    assert_eq!(data_fragment(&[]), "\\ Auto-generated strike data\nCREATE STRIKE-DATA \n");
}

#[test]
fn fragment_writes_decimal_literals() {
    assert_eq!(
        data_fragment(&[0, 9, 10, 99, 100, 127]),
        "\\ Auto-generated strike data\nCREATE STRIKE-DATA 0 , 9 , 10 , 99 , 100 , 127 , \n"
    );
}

#[test]
fn fragment_has_two_lines() {
    let bytes: Vec<u8> = (0u8..=127).collect();
    let source = data_fragment(&bytes);
    let lines: Vec<&str> = source.lines().collect();
    assert_eq!(lines.len(), 2);
    assert_eq!(lines[0], "\\ Auto-generated strike data");
    assert!(lines[1].starts_with("CREATE STRIKE-DATA 0 , 1 , 2 , "));
    assert!(lines[1].ends_with(" 126 , 127 , "));
    assert_eq!(lines[1].matches(" , ").count(), 128);
    assert!(source.ends_with('\n'));
}

#[test]
fn directive_names_destination_array_and_length() {
    assert_eq!(
        execution_directive("dist/out.bin", 5),
        "s\" dist/out.bin\" strike-init STRIKE-DATA 5 strike-sequence strike-close bye"
    );
}

#[test]
fn directive_for_an_empty_buffer() {
    assert_eq!(
        execution_directive("out", 0),
        "s\" out\" strike-init STRIKE-DATA 0 strike-sequence strike-close bye"
    );
}

#[test]
fn directive_sets_the_destination_between_the_quotes_as_it_is() {
    assert_eq!(
        execution_directive("a\" bye \\ b", 1234),
        "s\" a\" bye \\ b\" strike-init STRIKE-DATA 1234 strike-sequence strike-close bye"
    );
}
