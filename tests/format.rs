use uifs::format::{BlockMode, OpFlag, FRM_MAX_LEN, FRM_MIN_LEN};

#[test]
fn opcodes_match_the_wire_values() {
    assert_eq!(OpFlag::Key.code(), 1);
    assert_eq!(OpFlag::Sm3.code(), 2);
    assert_eq!(OpFlag::Sm4Enc.code(), 3);
    assert_eq!(OpFlag::Sm4Dec.code(), 4);
    for op in [OpFlag::Key, OpFlag::Sm3, OpFlag::Sm4Enc, OpFlag::Sm4Dec] {
        assert_eq!(OpFlag::from_code(op.code()), Some(op));
    }
    assert_eq!(OpFlag::from_code(0), None);
    assert_eq!(OpFlag::from_code(5), None);
}

#[test]
fn block_modes_match_the_wire_values() {
    assert_eq!(BlockMode::ECB.code(), 1);
    assert_eq!(BlockMode::CBC.code(), 2);
    assert_eq!(BlockMode::from_code(1), Some(BlockMode::ECB));
    assert_eq!(BlockMode::from_code(2), Some(BlockMode::CBC));
    assert_eq!(BlockMode::from_code(0), None);
    assert_eq!(BlockMode::from_code(3), None);
}

#[test]
fn frame_length_bounds() {
    assert_eq!(FRM_MIN_LEN, 7);
    assert_eq!(FRM_MAX_LEN, 65415);
}
