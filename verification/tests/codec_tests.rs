use minigit::codec::{format_dec, parse_dec, ObjectSize, ObjectSizeType};
use minigit::GitError;

#[test]
fn size_type_worked_example() {
    // Low four bits of 0x91 give 0x1, the continuation byte 0x02 shifts in
    // above them: size 0x1 | (0x02 << 4) == 33, and bits four to six of the
    // first byte carry type 1.
    let (st, end) = ObjectSizeType::try_parse(&[0x91, 0x02], 0).unwrap();
    assert_eq!(st.size.0, 33);
    assert_eq!(st.object_type, 1);
    assert_eq!(end, 2);
}

#[test]
fn size_type_single_byte() {
    // 0x33: no continuation, type 3, size 3.
    let (st, end) = ObjectSizeType::try_parse(&[0x33], 0).unwrap();
    assert_eq!(st.size.0, 3);
    assert_eq!(st.object_type, 3);
    assert_eq!(end, 1);
}

#[test]
fn size_type_runs_out() {
    // Continuation bit set but nothing follows.
    assert_eq!(
        ObjectSizeType::try_parse(&[0x91], 0).unwrap_err(),
        GitError::CorruptObject
    );
    assert_eq!(
        ObjectSizeType::try_parse(&[], 0).unwrap_err(),
        GitError::CorruptObject
    );
}

#[test]
fn plain_varint_single_and_continued() {
    let (v, end) = ObjectSize::try_parse(&[0x7f], 0).unwrap();
    assert_eq!(v.0, 127);
    assert_eq!(end, 1);

    // 0x85 contributes its low seven bits (5), 0x01 adds 1 << 7.
    let (v, end) = ObjectSize::try_parse(&[0x85, 0x01], 0).unwrap();
    assert_eq!(v.0, 133);
    assert_eq!(end, 2);

    // Parsing can start mid-buffer.
    let (v, end) = ObjectSize::try_parse(&[0xff, 0x0a], 1).unwrap();
    assert_eq!(v.0, 10);
    assert_eq!(end, 2);
}

#[test]
fn plain_varint_runs_out() {
    assert_eq!(
        ObjectSize::try_parse(&[0x80], 0).unwrap_err(),
        GitError::CorruptObject
    );
}

#[test]
fn decimal_round_trip() {
    assert_eq!(format_dec(0), b"0".to_vec());
    assert_eq!(format_dec(3), b"3".to_vec());
    assert_eq!(format_dec(40960), b"40960".to_vec());
    assert_eq!(parse_dec(b"0").unwrap(), 0);
    assert_eq!(parse_dec(b"12345").unwrap(), 12345);
    assert_eq!(parse_dec(format_dec(987654).as_slice()).unwrap(), 987654);
}

#[test]
fn decimal_rejects_junk() {
    assert_eq!(parse_dec(b"").unwrap_err(), GitError::CorruptObject);
    assert_eq!(parse_dec(b"12a").unwrap_err(), GitError::CorruptObject);
    assert_eq!(parse_dec(b"-3").unwrap_err(), GitError::CorruptObject);
    // Too large for any machine this runs on.
    assert_eq!(
        parse_dec(b"99999999999999999999999999").unwrap_err(),
        GitError::CorruptObject
    );
}
