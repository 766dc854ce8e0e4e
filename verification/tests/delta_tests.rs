use minigit::delta::{apply_delta, CopyCommand};
use minigit::GitError;

#[test]
fn literal_insert_instruction() {
    // Header 0x05: high bit clear, so the low seven bits count five raw
    // bytes that follow.
    let instrs = b"\x05hello";
    let (cmd, end) = CopyCommand::try_parse(instrs, 0).unwrap();
    match cmd {
        CopyCommand::Direct { data } => assert_eq!(data, b"hello".to_vec()),
        _ => panic!("expected a literal insert"),
    }
    assert_eq!(end, 6);

    // Applied against any base, it appends exactly those five bytes.
    let out = apply_delta(b"whatever base", 5, instrs, 0).unwrap();
    assert_eq!(out, b"hello".to_vec());
}

#[test]
fn copy_instruction_from_base() {
    // Header with the high bit, bit 0 (one offset byte) and bit 4 (one size
    // byte) set; offset byte 0x04 and size byte 0x03 copy base[4..7].
    let instrs = &[0b1001_0001, 0x04, 0x03];
    let (cmd, end) = CopyCommand::try_parse(instrs, 0).unwrap();
    match cmd {
        CopyCommand::FromReference { offset, size } => {
            assert_eq!(offset, 4);
            assert_eq!(size, 3);
        },
        _ => panic!("expected a copy"),
    }
    assert_eq!(end, 3);

    let out = apply_delta(b"0123456789", 3, instrs, 0).unwrap();
    assert_eq!(out, b"456".to_vec());
}

#[test]
fn copy_with_wide_offset() {
    // Bits 0 and 1 gate two little-endian offset bytes; no size bytes, so
    // the size defaults to 0x10000.
    let (cmd, end) = CopyCommand::try_parse(&[0b1000_0011, 0x04, 0x03], 0).unwrap();
    match cmd {
        CopyCommand::FromReference { offset, size } => {
            assert_eq!(offset, 0x0304);
            assert_eq!(size, 0x10000);
        },
        _ => panic!("expected a copy"),
    }
    assert_eq!(end, 3);
}

#[test]
fn command_size_reports_output_length() {
    let (insert, _) = CopyCommand::try_parse(b"\x02ab", 0).unwrap();
    assert_eq!(insert.size(), 2);
    let (copy, _) = CopyCommand::try_parse(&[0b1001_0001, 0x00, 0x07], 0).unwrap();
    assert_eq!(copy.size(), 7);
}

#[test]
fn copy_beyond_base_is_corrupt() {
    // offset 9, size 5 against a 10-byte base reaches past its end.
    let instrs = &[0b1001_0001, 0x09, 0x05];
    assert_eq!(
        apply_delta(b"0123456789", 5, instrs, 0).unwrap_err(),
        GitError::CorruptObject
    );
}

#[test]
fn overshoot_and_undershoot_are_corrupt() {
    // Five literal bytes against a target of three: overshoot.
    assert_eq!(
        apply_delta(b"", 3, b"\x05hello", 0).unwrap_err(),
        GitError::CorruptObject
    );
    // Two literal bytes and then nothing, against a target of three.
    assert_eq!(
        apply_delta(b"", 3, b"\x02he", 0).unwrap_err(),
        GitError::CorruptObject
    );
}

#[test]
fn reserved_and_truncated_instructions_are_corrupt() {
    // A zero header byte is reserved.
    assert_eq!(
        CopyCommand::try_parse(&[0x00], 0).unwrap_err(),
        GitError::CorruptObject
    );
    // Insert announcing more bytes than follow.
    assert_eq!(
        CopyCommand::try_parse(b"\x05he", 0).unwrap_err(),
        GitError::CorruptObject
    );
    // Copy announcing an offset byte that is missing.
    assert_eq!(
        CopyCommand::try_parse(&[0b1000_0001], 0).unwrap_err(),
        GitError::CorruptObject
    );
}

#[test]
fn empty_target_needs_no_instructions() {
    let out = apply_delta(b"base", 0, b"", 0).unwrap();
    assert_eq!(out, Vec::<u8>::new());
}
