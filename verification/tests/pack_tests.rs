use sha1::Digest;
use std::io::Write;

use minigit::protocol::{decode_pack_response, parse_refs_head, upload_pack_request};
use minigit::store::Store;
use minigit::{GitError, ObjectKind};

fn sha1_hex(data: &[u8]) -> Vec<u8> {
    hex::encode(sha1::Sha1::digest(data)).into_bytes()
}

fn zlib_compress(data: &[u8]) -> Vec<u8> {
    let mut enc = flate2::write::ZlibEncoder::new(Vec::new(), flate2::Compression::fast());
    enc.write_all(data).unwrap();
    enc.finish().unwrap()
}

/// A negotiation response: the NAK pkt-line, the pack header announcing
/// `entries.len()` objects, the entries, and an unverified trailing
/// checksum of zeros.
fn pack_response(entries: &[Vec<u8>]) -> Vec<u8> {
    let mut body = b"0008NAK\nPACK".to_vec();
    body.extend_from_slice(&2u32.to_be_bytes());
    body.extend_from_slice(&(entries.len() as u32).to_be_bytes());
    for e in entries {
        body.extend_from_slice(e);
    }
    body.extend_from_slice(&[0u8; 20]);
    body
}

#[test]
fn end_to_end_literal_blob() {
    // One literal blob entry of type 3, size 3, content "hi\n". After the
    // decode, the store holds an entry named sha1("blob 3\0hi\n") whose
    // read reproduces ("blob", "hi\n").
    let mut entry = vec![0x33u8]; // type 3, size 3, no continuation
    entry.extend_from_slice(&zlib_compress(b"hi\n"));
    let body = pack_response(&[entry]);

    let mut store = Store::new();
    let (version, count) = decode_pack_response(&body, &mut store).unwrap();
    assert_eq!(version, 2);
    assert_eq!(count, 1);
    assert_eq!(store.object_count(), 1);

    let expected_hash = sha1_hex(b"blob 3\0hi\n");
    let (kind, content) = store.read(&expected_hash).unwrap();
    assert_eq!(kind, ObjectKind::Blob);
    assert_eq!(content, b"hi\n".to_vec());
}

#[test]
fn ref_delta_rebuilds_from_its_base() {
    // First entry: literal blob "0123456789". Second entry: a ref-delta
    // against it whose single instruction copies base[4..7], yielding a
    // blob "456" stored under the base's kind.
    let base_content = b"0123456789";
    let mut entry1 = vec![0x3au8]; // type 3, size 10
    entry1.extend_from_slice(&zlib_compress(base_content));

    let base_hash = sha1_hex(b"blob 10\x000123456789");
    let mut entry2 = vec![0x73u8]; // type 7, size 3 (informational)
    entry2.extend_from_slice(&hex::decode(String::from_utf8(base_hash.clone()).unwrap()).unwrap());
    // Delta stream: base size 10, target size 3, one copy instruction.
    let delta = [0x0au8, 0x03, 0b1001_0001, 0x04, 0x03];
    entry2.extend_from_slice(&zlib_compress(&delta));

    let body = pack_response(&[entry1, entry2]);
    let mut store = Store::new();
    let (_, count) = decode_pack_response(&body, &mut store).unwrap();
    assert_eq!(count, 2);
    assert_eq!(store.object_count(), 2);

    let target_hash = sha1_hex(b"blob 3\x00456");
    let (kind, content) = store.read(&target_hash).unwrap();
    assert_eq!(kind, ObjectKind::Blob);
    assert_eq!(content, b"456".to_vec());
}

#[test]
fn ref_delta_target_takes_the_base_kind() {
    // The base is a commit; the reconstructed object must be stored as a
    // commit too, not as a blob.
    let base_content = b"tree 1234\n";
    let mut entry1 = vec![0x1au8]; // type 1 (commit), size 10
    entry1.extend_from_slice(&zlib_compress(base_content));

    let base_hash = sha1_hex(b"commit 10\x00tree 1234\n");
    let mut entry2 = vec![0x74u8]; // type 7, size 4 (informational)
    entry2.extend_from_slice(&hex::decode(String::from_utf8(base_hash).unwrap()).unwrap());
    // Base size 10, target size 4, copy base[0..4].
    let delta = [0x0au8, 0x04, 0b1001_0000, 0x04];
    entry2.extend_from_slice(&zlib_compress(&delta));

    let body = pack_response(&[entry1, entry2]);
    let mut store = Store::new();
    decode_pack_response(&body, &mut store).unwrap();

    let target_hash = sha1_hex(b"commit 4\x00tree");
    let (kind, content) = store.read(&target_hash).unwrap();
    assert_eq!(kind, ObjectKind::Commit);
    assert_eq!(content, b"tree".to_vec());
}

#[test]
fn ref_delta_without_its_base_is_not_found() {
    let mut entry = vec![0x73u8];
    entry.extend_from_slice(&[0x42u8; 20]);
    let delta = [0x0au8, 0x03, 0b1001_0001, 0x04, 0x03];
    entry.extend_from_slice(&zlib_compress(&delta));
    let body = pack_response(&[entry]);
    let mut store = Store::new();
    assert_eq!(
        decode_pack_response(&body, &mut store).unwrap_err(),
        GitError::ObjectNotFound
    );
}

#[test]
fn unsupported_entry_types_are_fatal() {
    // Type 6 is an offset-delta, which this layer does not support; the
    // stream cannot be resynchronized past it.
    let mut entry = vec![0x63u8]; // type 6, size 3
    entry.extend_from_slice(&zlib_compress(b"hi\n"));
    let body = pack_response(&[entry]);
    let mut store = Store::new();
    assert_eq!(
        decode_pack_response(&body, &mut store).unwrap_err(),
        GitError::UnsupportedObjectType
    );

    // Type 4 (tag) is recognized in the wire format but not materialized.
    let mut entry = vec![0x43u8];
    entry.extend_from_slice(&zlib_compress(b"hi\n"));
    let body = pack_response(&[entry]);
    let mut store = Store::new();
    assert_eq!(
        decode_pack_response(&body, &mut store).unwrap_err(),
        GitError::UnsupportedObjectType
    );
}

#[test]
fn declared_size_mismatch_is_corrupt() {
    let mut entry = vec![0x34u8]; // declares size 4, stream inflates to 3
    entry.extend_from_slice(&zlib_compress(b"hi\n"));
    let body = pack_response(&[entry]);
    let mut store = Store::new();
    assert_eq!(
        decode_pack_response(&body, &mut store).unwrap_err(),
        GitError::CorruptObject
    );
}

#[test]
fn truncated_entry_stream_is_corrupt() {
    let mut entry = vec![0x33u8];
    let mut compressed = zlib_compress(b"hi\n");
    compressed.pop();
    entry.extend_from_slice(&compressed);
    // Strip the checksum too: the truncated stream is the very end.
    let mut body = pack_response(&[entry]);
    body.truncate(body.len() - 20);
    let mut store = Store::new();
    assert_eq!(
        decode_pack_response(&body, &mut store).unwrap_err(),
        GitError::CorruptObject
    );
}

#[test]
fn bad_framing_is_a_protocol_error() {
    let mut store = Store::new();
    // No NAK acknowledgement.
    assert_eq!(
        decode_pack_response(b"0008ACK\nPACK", &mut store).unwrap_err(),
        GitError::ProtocolError
    );
    // NAK but no pack signature.
    assert_eq!(
        decode_pack_response(b"0008NAK\nJUNKxxxxxxxx", &mut store).unwrap_err(),
        GitError::ProtocolError
    );
    // Far too short.
    assert_eq!(
        decode_pack_response(b"0008NAK\nPACK", &mut store).unwrap_err(),
        GitError::ProtocolError
    );
}

#[test]
fn refs_response_yields_the_head_hash() {
    let mut body = b"001e# service=git-upload-pack\n".to_vec();
    body.extend_from_slice(b"0000");
    body.extend_from_slice(b"0155");
    body.extend_from_slice(b"aaaabbbbccccddddeeeeffff0000111122223333");
    body.extend_from_slice(b" HEAD\x00multi_ack side-band\n0000");
    let head = parse_refs_head(&body).unwrap();
    assert_eq!(head, b"aaaabbbbccccddddeeeeffff0000111122223333".to_vec());
}

#[test]
fn refs_response_framing_errors() {
    // Wrong announcement header.
    assert_eq!(
        parse_refs_head(b"001f# service\n0000015" ).unwrap_err(),
        GitError::ProtocolError
    );
    // No newline after the first line.
    assert_eq!(
        parse_refs_head(b"001e# service=git-upload-pack").unwrap_err(),
        GitError::ProtocolError
    );
    // Second line does not open with a flush marker.
    assert_eq!(
        parse_refs_head(b"001e# service\n0155aaaabbbbccccddddeeeeffff0000111122223333 HEAD\n")
            .unwrap_err(),
        GitError::ProtocolError
    );
    // Second line too short to carry a 40-byte hash.
    assert_eq!(
        parse_refs_head(b"001e# service\n00000155aaaa\nmore\n").unwrap_err(),
        GitError::ProtocolError
    );
}

#[test]
fn upload_pack_request_frames_the_want() {
    let head = b"aaaabbbbccccddddeeeeffff0000111122223333";
    let body = upload_pack_request(head);
    let mut expected = b"0032want aaaabbbbccccddddeeeeffff0000111122223333".to_vec();
    expected.extend_from_slice(b"\n00000009done\n");
    assert_eq!(body, expected);
}
