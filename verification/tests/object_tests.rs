use minigit::object::{build_loose, decode_loose, tree_entry_bytes, BlobObject, TreeObject};
use minigit::{GitError, ObjectKind};

#[test]
fn build_loose_blob() {
    assert_eq!(build_loose(ObjectKind::Blob, b"hi\n"), b"blob 3\0hi\n".to_vec());
    assert_eq!(build_loose(ObjectKind::Tree, b""), b"tree 0\0".to_vec());
    assert_eq!(
        build_loose(ObjectKind::Commit, b"tree x\n"),
        b"commit 7\0tree x\n".to_vec()
    );
}

#[test]
fn decode_loose_round_trip() {
    for kind in [ObjectKind::Blob, ObjectKind::Tree, ObjectKind::Commit] {
        let loose = build_loose(kind, b"some content");
        let (k, c) = decode_loose(&loose).unwrap();
        assert_eq!(k, kind);
        assert_eq!(c, b"some content".to_vec());
    }
}

#[test]
fn decode_loose_rejects_malformed() {
    // No NUL terminator at all.
    assert_eq!(decode_loose(b"blob 3hi").unwrap_err(), GitError::CorruptObject);
    // Unknown kind name.
    assert_eq!(decode_loose(b"tag 3\0hi\n").unwrap_err(), GitError::CorruptObject);
    // Declared size disagrees with the content.
    assert_eq!(decode_loose(b"blob 4\0hi\n").unwrap_err(), GitError::CorruptObject);
    assert_eq!(decode_loose(b"blob 2\0hi\n").unwrap_err(), GitError::CorruptObject);
    // Digits missing or junk.
    assert_eq!(decode_loose(b"blob \0").unwrap_err(), GitError::CorruptObject);
    assert_eq!(decode_loose(b"blob x\0hi").unwrap_err(), GitError::CorruptObject);
}

#[test]
fn blob_read_happy_path() {
    let blob = BlobObject::read(b"blob 3\0hi\n").unwrap();
    assert_eq!(blob._size, 3);
    assert_eq!(blob.content, "hi\n");
}

#[test]
fn blob_read_rejects_other_kinds_and_bad_text() {
    assert_eq!(
        BlobObject::read(b"tree 0\0").unwrap_err(),
        GitError::CorruptObject
    );
    // 0xff alone is not UTF-8.
    assert_eq!(
        BlobObject::read(b"blob 1\0\xff").unwrap_err(),
        GitError::CorruptObject
    );
}

#[test]
fn tree_entry_bytes_layout() {
    let hash = [0xabu8; 20];
    let entry = tree_entry_bytes(b"100644", b"hello.txt", &hash);
    let mut expected = b"100644 hello.txt\0".to_vec();
    expected.extend_from_slice(&hash);
    assert_eq!(entry, expected);
}

#[test]
fn tree_read_two_entries() {
    let h1 = [0x11u8; 20];
    let h2 = [0x22u8; 20];
    let mut content = tree_entry_bytes(b"100644", b"a.txt", &h1);
    content.extend_from_slice(&tree_entry_bytes(b"40000", b"dir", &h2));
    let loose = build_loose(ObjectKind::Tree, &content);
    let tree = TreeObject::read(&loose).unwrap();
    assert_eq!(tree._size, content.len());
    assert_eq!(tree.items.len(), 2);
    assert_eq!(tree.items[0]._mode, "100644");
    assert_eq!(tree.items[0].name, "a.txt");
    assert_eq!(tree.items[0]._hash, h1.to_vec());
    assert_eq!(tree.items[1]._mode, "40000");
    assert_eq!(tree.items[1].name, "dir");
    assert_eq!(tree.items[1]._hash, h2.to_vec());
}

#[test]
fn tree_read_empty() {
    let loose = build_loose(ObjectKind::Tree, b"");
    let tree = TreeObject::read(&loose).unwrap();
    assert_eq!(tree._size, 0);
    assert_eq!(tree.items.len(), 0);
}

#[test]
fn tree_read_rejects_malformed_entries() {
    // Entry line with no space between mode and name.
    let mut content = b"100644a.txt\0".to_vec();
    content.extend_from_slice(&[0u8; 20]);
    let loose = build_loose(ObjectKind::Tree, &content);
    assert_eq!(TreeObject::read(&loose).unwrap_err(), GitError::CorruptObject);

    // Hash truncated: fewer than 20 bytes after the NUL.
    let mut content = b"100644 a.txt\0".to_vec();
    content.extend_from_slice(&[0u8; 7]);
    let loose = build_loose(ObjectKind::Tree, &content);
    assert_eq!(TreeObject::read(&loose).unwrap_err(), GitError::CorruptObject);

    // A blob is not a tree.
    assert_eq!(
        TreeObject::read(b"blob 0\0").unwrap_err(),
        GitError::CorruptObject
    );
}
