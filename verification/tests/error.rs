use dotmatrix_fileprinter::StrikeError;

#[test]
fn message_of_a_byte_above_the_limit() {
    let e = StrikeError::ByteOutOfRange { position: 1, value: 200 };
    assert_eq!(e.message(), "Byte 200 at position 1 exceeds ASCII limit (127)");
}

#[test]
fn message_of_a_banned_byte() {
    let e = StrikeError::ForbiddenByte {
        position: 12,
        value: 160,
        description: String::from("NBSP (Non-Breaking Space)"),
    };
    assert_eq!(
        e.message(),
        "Forbidden byte 160 (0xA0) at position 12: NBSP (Non-Breaking Space)"
    );
}

#[test]
fn message_of_a_banned_byte_pads_the_hex_value() {
    let e = StrikeError::ForbiddenByte {
        position: 0,
        value: 9,
        description: String::from("tab"),
    };
    assert_eq!(e.message(), "Forbidden byte 9 (0x09) at position 0: tab");
}

#[test]
fn message_of_a_file_error() {
    let e = StrikeError::FileError(String::from("kernel/ directory not found"));
    assert_eq!(e.message(), "File operation failed: kernel/ directory not found");
}

#[test]
fn message_of_an_interpreter_failure() {
    let e = StrikeError::ForthError(String::from("Forth kernel returned non-zero exit code"));
    assert_eq!(
        e.message(),
        "Forth kernel execution failed: Forth kernel returned non-zero exit code"
    );
}

#[test]
fn message_of_a_missing_interpreter() {
    assert_eq!(
        StrikeError::GforthNotFound.message(),
        "Gforth not found. Please install gforth."
    );
}

#[test]
fn message_holds_large_positions() {
    let e = StrikeError::ByteOutOfRange { position: usize::MAX, value: 255 };
    assert_eq!(
        e.message(),
        format!("Byte 255 at position {} exceeds ASCII limit (127)", usize::MAX)
    );
}

#[test]
fn duplicate_equals_its_source() {
    let errors = vec![
        StrikeError::ByteOutOfRange { position: 3, value: 130 },
        StrikeError::ForbiddenByte {
            position: 4,
            value: 194,
            description: String::from("UTF-8 continuation marker"),
        },
        StrikeError::FileError(String::from("disk full")),
        StrikeError::ForthError(String::from("no such file")),
        StrikeError::GforthNotFound,
    ];
    for e in &errors {
        assert_eq!(&e.duplicate(), e);
    }
}
