use dotmatrix_fileprinter::constraints::{
    forbidden_description, over_limit, FORBIDDEN_NBSP, FORBIDDEN_UTF8, MAX_BYTE,
};
use dotmatrix_fileprinter::{find_contaminants, validate_byte, validate_strict, StrikeError};

#[test]
fn hello_passes_both_modes() {
    let bytes = [72u8, 101, 108, 108, 111];
    assert_eq!(validate_strict(&bytes), Ok(()));
    assert!(find_contaminants(&bytes).is_empty());
}

#[test]
fn empty_buffer_passes_both_modes() {
    let bytes: [u8; 0] = [];
    assert_eq!(validate_strict(&bytes), Ok(()));
    assert!(find_contaminants(&bytes).is_empty());
}

#[test]
fn byte_above_limit_fails_strict_and_is_found_once() {
    let bytes = [65u8, 200, 66];
    assert_eq!(
        validate_strict(&bytes),
        Err(StrikeError::ByteOutOfRange { position: 1, value: 200 })
    );
    let found = find_contaminants(&bytes);
    assert_eq!(found.len(), 1);
    assert_eq!(found[0].position, 1);
    assert_eq!(found[0].value, 200);
    assert_eq!(found[0].description, "Non-ASCII (0xC8 > 127)");
}

#[test]
fn lone_nbsp_is_reported_by_the_limit_rule_in_both_modes() {
    let bytes = [160u8];
    assert_eq!(
        validate_strict(&bytes),
        Err(StrikeError::ByteOutOfRange { position: 0, value: 160 })
    );
    let found = find_contaminants(&bytes);
    assert_eq!(found.len(), 1);
    assert_eq!(found[0].position, 0);
    assert_eq!(found[0].value, 160);
    assert_eq!(found[0].description, "Non-ASCII (0xA0 > 127)");
}

#[test]
fn utf8_lead_byte_is_reported_by_the_limit_rule() {
    assert_eq!(
        validate_byte(194, 7),
        Err(StrikeError::ByteOutOfRange { position: 7, value: 194 })
    );
    let found = find_contaminants(&[194u8]);
    assert_eq!(found.len(), 1);
    assert_eq!(found[0].description, "Non-ASCII (0xC2 > 127)");
}

#[test]
fn limit_is_inclusive() {
    assert_eq!(validate_byte(0, 0), Ok(()));
    assert_eq!(validate_byte(127, 0), Ok(()));
    assert_eq!(
        validate_byte(128, 3),
        Err(StrikeError::ByteOutOfRange { position: 3, value: 128 })
    );
    assert_eq!(
        validate_byte(255, usize::MAX),
        Err(StrikeError::ByteOutOfRange { position: usize::MAX, value: 255 })
    );
    assert!(!over_limit(MAX_BYTE));
    assert!(over_limit(MAX_BYTE + 1));
}

#[test]
fn single_byte_gate_follows_the_policy_for_every_byte() {
    for b in 0u8..=255 {
        let passes = validate_strict(&[b]).is_ok();
        let allowed = b <= MAX_BYTE && b != FORBIDDEN_NBSP && b != FORBIDDEN_UTF8;
        assert_eq!(passes, allowed, "byte {}", b);
        assert_eq!(validate_byte(b, 0).is_ok(), allowed, "byte {}", b);
    }
}

#[test]
fn banned_values_carry_their_reasons() {
    assert_eq!(
        forbidden_description(FORBIDDEN_NBSP),
        Some(String::from("NBSP (Non-Breaking Space)"))
    );
    assert_eq!(
        forbidden_description(FORBIDDEN_UTF8),
        Some(String::from("UTF-8 continuation marker"))
    );
    for b in 0u8..=255 {
        if b != FORBIDDEN_NBSP && b != FORBIDDEN_UTF8 {
            assert_eq!(forbidden_description(b), None, "byte {}", b);
        }
    }
}

#[test]
fn modes_agree_on_pass_and_fail() {
    let buffers: Vec<Vec<u8>> = vec![
        vec![],
        vec![0],
        vec![127],
        vec![128],
        vec![72, 101, 108, 108, 111],
        vec![65, 200, 66],
        vec![160],
        vec![72, 194, 73],
        vec![255, 0, 255],
        (0u8..=255).collect(),
        (0u8..=127).collect(),
    ];
    for bytes in &buffers {
        assert_eq!(
            find_contaminants(bytes).is_empty(),
            validate_strict(bytes).is_ok(),
            "buffer {:?}",
            bytes
        );
    }
}

#[test]
fn strict_gate_reports_the_first_violation_only() {
    let bytes = [1u8, 2, 250, 3, 160, 194];
    assert_eq!(
        validate_strict(&bytes),
        Err(StrikeError::ByteOutOfRange { position: 2, value: 250 })
    );
}

#[test]
fn scan_positions_increase_and_match_the_buffer() {
    let bytes = [200u8, 10, 160, 11, 12, 194, 255, 13, 128];
    let found = find_contaminants(&bytes);
    let positions: Vec<usize> = found.iter().map(|c| c.position).collect();
    assert_eq!(positions, vec![0, 2, 5, 6, 8]);
    for pair in found.windows(2) {
        assert!(pair[0].position < pair[1].position);
    }
    for c in &found {
        assert_eq!(c.value, bytes[c.position]);
    }
    let values: Vec<u8> = found.iter().map(|c| c.value).collect();
    assert_eq!(values, vec![200, 160, 194, 255, 128]);
}

#[test]
fn scan_of_every_byte_value_finds_the_upper_half() {
    let bytes: Vec<u8> = (0u8..=255).collect();
    let found = find_contaminants(&bytes);
    assert_eq!(found.len(), 128);
    for (k, c) in found.iter().enumerate() {
        assert_eq!(c.position, 128 + k);
        assert_eq!(c.value as usize, 128 + k);
        assert_eq!(c.description, format!("Non-ASCII (0x{:02X} > 127)", c.value));
    }
}
