use dotmatrix_fileprinter::{
    bytes_to_hexdump, check_gforth, find_contaminants, preview_forth_strike, read_substrate_hex,
    verify_substrate, ProcessOutcome,
};

#[test]
fn preview_of_clean_bytes() {
    let preview = preview_forth_strike(vec![72, 101, 108, 108, 111]);
    assert!(!preview.would_contaminate);
    assert!(preview.contaminants.is_empty());
    assert_eq!(preview.byte_count, 5);
    assert_eq!(preview.hex_preview, bytes_to_hexdump(&[72, 101, 108, 108, 111]));
    assert!(preview.hex_preview.ends_with("|Hello|"));
}

#[test]
fn preview_of_an_empty_buffer() {
    let preview = preview_forth_strike(Vec::new());
    assert!(!preview.would_contaminate);
    assert!(preview.contaminants.is_empty());
    assert_eq!(preview.byte_count, 0);
    assert_eq!(preview.hex_preview, "");
}

#[test]
fn preview_of_every_byte_value() {
    let bytes: Vec<u8> = (0u8..=255).collect();
    let preview = preview_forth_strike(bytes.clone());
    assert!(preview.would_contaminate);
    assert_eq!(preview.byte_count, 256);
    assert_eq!(preview.contaminants, find_contaminants(&bytes));
    assert_eq!(preview.contaminants.len(), 128);
    assert_eq!(preview.hex_preview.lines().count(), 16);
}

#[test]
fn preview_reports_contamination_as_data() {
    let preview = preview_forth_strike(vec![65, 200, 66]);
    assert!(preview.would_contaminate);
    assert_eq!(preview.byte_count, 3);
    assert_eq!(preview.contaminants.len(), 1);
    assert_eq!(preview.contaminants[0].position, 1);
    assert_eq!(preview.contaminants[0].value, 200);
}

#[test]
fn verify_reports_a_contaminated_substrate() {
    let report = verify_substrate("dist/out.bin", Ok(vec![72, 194, 73])).unwrap();
    assert!(!report.clean);
    assert_eq!(report.size, 3);
    assert_eq!(report.contaminants.len(), 1);
    assert_eq!(report.contaminants[0].position, 1);
    assert_eq!(report.contaminants[0].value, 194);
    assert_eq!(report.contaminants[0].description, "Non-ASCII (0xC2 > 127)");
    assert_eq!(
        report.hexdump,
        format!("00000000  48 c2 49{}  |H.I|", " ".repeat(40))
    );
}

#[test]
fn verify_reports_a_clean_substrate() {
    let report = verify_substrate("dist/out.bin", Ok(vec![72, 105])).unwrap();
    assert!(report.clean);
    assert!(report.contaminants.is_empty());
    assert_eq!(report.size, 2);
    assert_eq!(report.hexdump, bytes_to_hexdump(&[72, 105]));
}

#[test]
fn verify_of_an_empty_substrate() {
    let report = verify_substrate("empty", Ok(Vec::new())).unwrap();
    assert!(report.clean);
    assert_eq!(report.size, 0);
    assert_eq!(report.hexdump, "");
}

#[test]
fn verify_passes_a_read_failure_on() {
    let report = verify_substrate(
        "dist/missing.bin",
        Err(String::from("No such file or directory (os error 2)")),
    );
    assert_eq!(
        report,
        Err(String::from(
            "Failed to read dist/missing.bin: No such file or directory (os error 2)"
        ))
    );
}

#[test]
fn reading_for_display_is_verification() {
    let bytes = vec![1u8, 2, 200, 4];
    assert_eq!(
        read_substrate_hex("p", Ok(bytes.clone())),
        verify_substrate("p", Ok(bytes))
    );
    assert_eq!(
        read_substrate_hex("p", Err(String::from("denied"))),
        Err(String::from("Failed to read p: denied"))
    );
}

#[test]
fn interpreter_is_available_only_after_a_clean_exit() {
    assert!(check_gforth(&ProcessOutcome::Exited { success: true }));
    assert!(!check_gforth(&ProcessOutcome::Exited { success: false }));
    assert!(!check_gforth(&ProcessOutcome::NotStarted {
        diagnostic: String::from("No such file or directory (os error 2)"),
    }));
}
