use dotmatrix_fileprinter::bytes_to_hexdump;

#[test]
fn hello_is_a_single_padded_row() {
    let dump = bytes_to_hexdump(&[72, 101, 108, 108, 111]);
    let expected = format!("00000000  48 65 6c 6c 6f{}  |Hello|", " ".repeat(34));
    assert_eq!(dump, expected);
    assert_eq!(dump.lines().count(), 1);
    assert!(dump.starts_with("00000000  48 65 6c 6c 6f "));
    assert!(dump.ends_with("  |Hello|"));
}

#[test]
fn empty_buffer_gives_the_empty_string() {
    assert_eq!(bytes_to_hexdump(&[]), "");
}

#[test]
fn full_row_has_a_gap_before_the_ninth_byte() {
    let bytes: Vec<u8> = (0x41u8..0x51).collect();
    assert_eq!(
        bytes_to_hexdump(&bytes),
        "00000000  41 42 43 44 45 46 47 48  49 4a 4b 4c 4d 4e 4f 50  |ABCDEFGHIJKLMNOP|"
    );
}

#[test]
fn nine_bytes_show_the_gap_and_the_padding() {
    let bytes = [0u8, 1, 2, 3, 4, 5, 6, 7, 8];
    let expected = format!(
        "00000000  00 01 02 03 04 05 06 07  08{}  |.........|",
        " ".repeat(21)
    );
    assert_eq!(bytes_to_hexdump(&bytes), expected);
}

#[test]
fn second_row_starts_at_offset_sixteen() {
    let bytes: Vec<u8> = (0u8..17).collect();
    let expected = format!(
        "00000000  00 01 02 03 04 05 06 07  08 09 0a 0b 0c 0d 0e 0f  |................|\n00000010  10{}  |.|",
        " ".repeat(46)
    );
    assert_eq!(bytes_to_hexdump(&bytes), expected);
}

#[test]
fn row_count_is_length_over_sixteen_rounded_up() {
    for len in 0usize..=100 {
        let bytes = vec![b'a'; len];
        let dump = bytes_to_hexdump(&bytes);
        assert_eq!(dump.lines().count(), (len + 15) / 16, "length {}", len);
        assert!(!dump.ends_with('\n'));
    }
}

#[test]
fn rows_align_whatever_their_length() {
    let bytes: Vec<u8> = (0u8..=255).collect();
    for len in 1usize..=40 {
        let dump = bytes_to_hexdump(&bytes[..len]);
        for line in dump.lines() {
            assert_eq!(&line[8..10], "  ");
            assert_eq!(&line[58..61], "  |", "length {}", len);
            assert!(line.ends_with('|'));
        }
    }
}

#[test]
fn offsets_count_bytes_of_the_whole_buffer() {
    let bytes = vec![0u8; 16 * 17 + 1];
    let dump = bytes_to_hexdump(&bytes);
    let offsets: Vec<&str> = dump.lines().map(|line| &line[..8]).collect();
    assert_eq!(offsets.len(), 18);
    assert_eq!(offsets[0], "00000000");
    assert_eq!(offsets[1], "00000010");
    assert_eq!(offsets[10], "000000a0");
    assert_eq!(offsets[16], "00000100");
    assert_eq!(offsets[17], "00000110");
}

#[test]
fn only_printable_ascii_is_shown_as_itself() {
    assert_eq!(
        bytes_to_hexdump(&[31, 32, 126, 127, 128, 255, 10]),
        format!("00000000  1f 20 7e 7f 80 ff 0a{}  |. ~....|", " ".repeat(28))
    );
}

#[test]
fn rendering_twice_gives_the_same_text() {
    let bytes: Vec<u8> = (0u8..=255).collect();
    let first = bytes_to_hexdump(&bytes);
    let second = bytes_to_hexdump(&bytes);
    assert_eq!(first, second);
    assert_eq!(first.lines().count(), 16);
}
