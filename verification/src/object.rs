//! The loose-object wire format.
//!
//! A loose object is the canonical header `"<kind> <decimal-length>\0"`
//! followed by the raw content; the whole sequence is what gets hashed and
//! what gets compressed. This module builds that sequence, parses it back,
//! and reads the two structured object forms, blobs and trees, out of it.
use vstd::prelude::*;

use crate::codec::{dec_bytes, dec_value, is_dec_digits, lemma_dec_bytes_value, parse_dec};
use crate::digest::{hex_of, sha1_of};
use crate::GitError;
use crate::ObjectKind;
use vstd::slice::{slice_subrange, slice_to_vec};
use vstd::utf8::{decode_utf8, valid_utf8};

verus! {

// ---------------------------------------------------------------------------
// Byte searching
// ---------------------------------------------------------------------------
/// The index of the first occurrence of `b` in `s` at or after `from`.
pub open spec fn find_first(s: Seq<u8>, b: u8, from: int) -> Option<int>
    decreases s.len() - from,
{
    if from < 0 || from >= s.len() {
        None
    } else if s[from] == b {
        Some(from)
    } else {
        find_first(s, b, from + 1)
    }
}

/// What `find_first` finds is the first occurrence, and `None` means there
/// is none.
pub proof fn lemma_find_first(s: Seq<u8>, b: u8, from: int)
    requires
        from >= 0,
    ensures
        match find_first(s, b, from) {
            Some(i) => from <= i < s.len() && s[i] == b && (forall|j: int|
                from <= j < i ==> s[j] != b),
            None => forall|j: int| from <= j < s.len() ==> s[j] != b,
        },
    decreases s.len() - from,
{
    if from < s.len() && s[from] != b {
        lemma_find_first(s, b, from + 1);
    }
}

/// Search `s` for the first `b` at or after `from`.
pub fn find_byte(s: &[u8], b: u8, from: usize) -> (r: Option<usize>)
    ensures
        match r {
            Some(i) => find_first(s@, b, from as int) == Some(i as int) && from <= i < s@.len(),
            None => find_first(s@, b, from as int) is None,
        },
{
    let mut i: usize = from;
    while i < s.len()
        invariant
            from <= i,
            find_first(s@, b, from as int) == find_first(s@, b, i as int),
        decreases s@.len() - i,
    {
        if s[i] == b {
            return Some(i);
        }
        i = i + 1;
    }
    None
}

// ---------------------------------------------------------------------------
// The canonical loose form
// ---------------------------------------------------------------------------
/// The canonical serialized form of an object: header, NUL, content.
pub open spec fn loose_bytes(kind: ObjectKind, content: Seq<u8>) -> Seq<u8> {
    kind.name_bytes() + seq![32u8] + dec_bytes(content.len()) + seq![0u8] + content
}

/// The object's identity: the lowercase hex rendering of the SHA-1 digest
/// of its canonical loose form. Forty bytes of ASCII.
pub open spec fn object_hash(kind: ObjectKind, content: Seq<u8>) -> Seq<u8> {
    hex_of(sha1_of(loose_bytes(kind, content)))
}

/// Build the canonical loose form of an object.
pub fn build_loose(kind: ObjectKind, content: &[u8]) -> (r: Vec<u8>)
    ensures
        r@ == loose_bytes(kind, content@),
{
    let mut r = kind.name();
    r.push(32);
    let mut digits = crate::codec::format_dec(content.len());
    r.append(&mut digits);
    r.push(0);
    r.extend_from_slice(content);
    proof {
        assert(r@ =~= loose_bytes(kind, content@));
    }
    r
}

/// Split a header into its kind and the digit run that follows, if the
/// header opens with a known kind name and a space.
pub open spec fn kind_of_header(header: Seq<u8>) -> Option<(ObjectKind, Seq<u8>)> {
    if header.len() >= 5 && header.take(5) == ObjectKind::Blob.name_bytes() + seq![32u8] {
        Some((ObjectKind::Blob, header.skip(5)))
    } else if header.len() >= 5 && header.take(5) == ObjectKind::Tree.name_bytes() + seq![32u8] {
        Some((ObjectKind::Tree, header.skip(5)))
    } else if header.len() >= 7 && header.take(7) == ObjectKind::Commit.name_bytes()
        + seq![32u8] {
        Some((ObjectKind::Commit, header.skip(7)))
    } else {
        None
    }
}

/// What reading a loose form back yields: the kind and the content, or
/// `CorruptObject` when the header is malformed or the declared length does
/// not equal the actual content length.
pub open spec fn parse_loose(bytes: Seq<u8>) -> Result<(ObjectKind, Seq<u8>), GitError> {
    match find_first(bytes, 0, 0) {
        None => Err(GitError::CorruptObject),
        Some(nul) => {
            let header = bytes.take(nul);
            let content = bytes.skip(nul + 1);
            match kind_of_header(header) {
                None => Err(GitError::CorruptObject),
                Some((kind, digits)) => if is_dec_digits(digits) && dec_value(digits)
                    == content.len() {
                    Ok((kind, content))
                } else {
                    Err(GitError::CorruptObject)
                },
            }
        },
    }
}

/// Read a loose form back into its kind and content.
pub fn decode_loose(bytes: &[u8]) -> (r: Result<(ObjectKind, Vec<u8>), GitError>)
    ensures
        match r {
            Ok((k, c)) => parse_loose(bytes@) == Ok::<_, GitError>((k, c@)),
            Err(e) => parse_loose(bytes@) == Err::<(ObjectKind, Seq<u8>), _>(e),
        },
{
    let nul = match find_byte(bytes, 0, 0) {
        None => {
            return Err(GitError::CorruptObject);
        },
        Some(i) => i,
    };
    let ghost header = bytes@.take(nul as int);
    let (kind, dstart): (ObjectKind, usize) = if nul >= 5 && bytes[0] == 98 && bytes[1] == 108
        && bytes[2] == 111 && bytes[3] == 98 && bytes[4] == 32 {
        proof {
            assert(header.take(5) =~= ObjectKind::Blob.name_bytes() + seq![32u8]);
            assert(kind_of_header(header) == Some((ObjectKind::Blob, header.skip(5))));
        }
        (ObjectKind::Blob, 5)
    } else if nul >= 5 && bytes[0] == 116 && bytes[1] == 114 && bytes[2] == 101 && bytes[3] == 101
        && bytes[4] == 32 {
        proof {
            assert(header.take(5) =~= ObjectKind::Tree.name_bytes() + seq![32u8]);
            assert(header.take(5) != ObjectKind::Blob.name_bytes() + seq![32u8]) by {
                if header.take(5) == ObjectKind::Blob.name_bytes() + seq![32u8] {
                    assert(header.take(5)[0] == 98);
                }
            }
            assert(kind_of_header(header) == Some((ObjectKind::Tree, header.skip(5))));
        }
        (ObjectKind::Tree, 5)
    } else if nul >= 7 && bytes[0] == 99 && bytes[1] == 111 && bytes[2] == 109 && bytes[3] == 109
        && bytes[4] == 105 && bytes[5] == 116 && bytes[6] == 32 {
        proof {
            assert(header.take(7) =~= ObjectKind::Commit.name_bytes() + seq![32u8]);
            assert(header.take(5) != ObjectKind::Blob.name_bytes() + seq![32u8]) by {
                if header.take(5) == ObjectKind::Blob.name_bytes() + seq![32u8] {
                    assert(header.take(5)[0] == 98);
                }
            }
            assert(header.take(5) != ObjectKind::Tree.name_bytes() + seq![32u8]) by {
                if header.take(5) == ObjectKind::Tree.name_bytes() + seq![32u8] {
                    assert(header.take(5)[0] == 116);
                }
            }
            assert(kind_of_header(header) == Some((ObjectKind::Commit, header.skip(7))));
        }
        (ObjectKind::Commit, 7)
    } else {
        proof {
            lemma_find_first(bytes@, 0, 0);
            assert(kind_of_header(header) is None) by {
                if header.len() >= 5 && header.take(5) == ObjectKind::Blob.name_bytes()
                    + seq![32u8] {
                    assert(header.take(5)[0] == 98 && header.take(5)[1] == 108 && header.take(5)[2]
                        == 111 && header.take(5)[3] == 98 && header.take(5)[4] == 32);
                }
                if header.len() >= 5 && header.take(5) == ObjectKind::Tree.name_bytes()
                    + seq![32u8] {
                    assert(header.take(5)[0] == 116 && header.take(5)[1] == 114 && header.take(
                        5,
                    )[2] == 101 && header.take(5)[3] == 101 && header.take(5)[4] == 32);
                }
                if header.len() >= 7 && header.take(7) == ObjectKind::Commit.name_bytes()
                    + seq![32u8] {
                    assert(header.take(7)[0] == 99 && header.take(7)[1] == 111 && header.take(7)[2]
                        == 109 && header.take(7)[3] == 109 && header.take(7)[4] == 105
                        && header.take(7)[5] == 116 && header.take(7)[6] == 32);
                }
            }
        }
        return Err(GitError::CorruptObject);
    };
    proof {
        assert(kind_of_header(header) == Some((kind, header.skip(dstart as int))));
        assert(header.skip(dstart as int) =~= bytes@.subrange(dstart as int, nul as int));
    }
    let digits = slice_subrange(bytes, dstart, nul);
    let content = slice_to_vec(slice_subrange(bytes, nul + 1, bytes.len()));
    proof {
        assert(content@ =~= bytes@.skip(nul + 1));
    }
    match parse_dec(digits) {
        Err(_) => {
            proof {
                // An overdeclared length can never equal the content length.
                assert(content@.len() <= usize::MAX);
            }
            Err(GitError::CorruptObject)
        },
        Ok(size) => {
            if size == content.len() {
                Ok((kind, content))
            } else {
                Err(GitError::CorruptObject)
            }
        },
    }
}

/// Reading a canonical loose form back yields exactly the kind and content
/// it was built from.
pub proof fn lemma_parse_loose_inverts(kind: ObjectKind, content: Seq<u8>)
    ensures
        parse_loose(loose_bytes(kind, content)) == Ok::<_, GitError>((kind, content)),
{
    let bytes = loose_bytes(kind, content);
    let digits = dec_bytes(content.len());
    lemma_dec_bytes_value(content.len());
    let hlen = kind.name_bytes().len() + 1 + digits.len();
    let nul = hlen as int;
    assert(bytes[nul] == 0);
    assert(forall|j: int| 0 <= j < nul ==> bytes[j] != 0) by {
        assert(forall|j: int|
            0 <= j < kind.name_bytes().len() ==> #[trigger] bytes[j] == kind.name_bytes()[j]);
        assert(bytes[kind.name_bytes().len() as int] == 32);
        assert(forall|j: int|
            kind.name_bytes().len() + 1 <= j < nul ==> #[trigger] bytes[j] == digits[j
                - kind.name_bytes().len() - 1]);
    }
    lemma_find_first_exact(bytes, 0, 0, nul);
    let header = bytes.take(nul);
    assert(header =~= kind.name_bytes() + seq![32u8] + digits);
    let prefix_len = (kind.name_bytes().len() + 1) as int;
    assert(header.take(prefix_len) =~= kind.name_bytes() + seq![32u8]);
    assert(header.skip(prefix_len) =~= digits);
    match kind {
        ObjectKind::Blob => {
            assert(kind_of_header(header) == Some((kind, digits)));
        },
        ObjectKind::Tree => {
            assert(header.take(5)[0] == 116);
            assert(kind_of_header(header) == Some((kind, digits)));
        },
        ObjectKind::Commit => {
            assert(header.len() >= 7);
            if header.len() >= 5 && header.take(5) == ObjectKind::Blob.name_bytes() + seq![32u8] {
                assert(header.take(5)[0] == 98);
                assert(false);
            }
            if header.len() >= 5 && header.take(5) == ObjectKind::Tree.name_bytes() + seq![32u8] {
                assert(header.take(5)[0] == 116);
                assert(false);
            }
            assert(kind_of_header(header) == Some((kind, digits)));
        },
    }
    assert(bytes.skip(nul + 1) =~= content);
}

/// Rounds out `lemma_find_first`: an occurrence with nothing before it is
/// what `find_first` returns.
pub proof fn lemma_find_first_exact(s: Seq<u8>, b: u8, from: int, i: int)
    requires
        0 <= from <= i < s.len(),
        s[i] == b,
        forall|j: int| from <= j < i ==> s[j] != b,
    ensures
        find_first(s, b, from) == Some(i),
    decreases i - from,
{
    if from < i {
        lemma_find_first_exact(s, b, from + 1, i);
    }
}

// ---------------------------------------------------------------------------
// Blobs
// ---------------------------------------------------------------------------
/// Relies on `String::from_utf8`: it succeeds exactly on valid UTF-8 and
/// returns the decoded characters.
#[verifier::external_body]
fn utf8_to_string(bytes: Vec<u8>) -> (r: Option<String>)
    ensures
        r is Some <==> valid_utf8(bytes@),
        r matches Some(s) ==> s@ == decode_utf8(bytes@),
{
    String::from_utf8(bytes).ok()
}

/// What reading a blob from its loose form yields: the declared size and
/// the content as text.
pub open spec fn blob_read_spec(bytes: Seq<u8>) -> Result<(nat, Seq<char>), GitError> {
    match parse_loose(bytes) {
        Err(e) => Err(e),
        Ok((kind, content)) => if kind != ObjectKind::Blob {
            Err(GitError::CorruptObject)
        } else if valid_utf8(content) {
            Ok((content.len(), decode_utf8(content)))
        } else {
            Err(GitError::CorruptObject)
        },
    }
}

/// A blob object: opaque file content.
#[derive(Debug)]
pub struct BlobObject {
    pub _size: usize,
    pub content: String,
}

impl BlobObject {
    /// Read a blob out of its decompressed loose form.
    pub fn read(input: &[u8]) -> (r: Result<Self, GitError>)
        ensures
            match r {
                Ok(b) => blob_read_spec(input@) == Ok::<_, GitError>((b._size as nat, b.content@)),
                Err(e) => blob_read_spec(input@) == Err::<(nat, Seq<char>), _>(e),
            },
    {
        let (kind, content) = match decode_loose(input) {
            Err(e) => {
                return Err(e);
            },
            Ok(kc) => kc,
        };
        match kind {
            ObjectKind::Blob => {},
            _ => {
                return Err(GitError::CorruptObject);
            },
        }
        let size = content.len();
        match utf8_to_string(content) {
            None => Err(GitError::CorruptObject),
            Some(text) => Ok(BlobObject { _size: size, content: text }),
        }
    }
}

// ---------------------------------------------------------------------------
// Trees
// ---------------------------------------------------------------------------
/// The mathematical shape of one tree entry: its permission mode, its name,
/// and the 20 raw bytes of the hash it points at.
pub struct TreeItemView {
    pub mode: Seq<char>,
    pub name: Seq<char>,
    pub hash: Seq<u8>,
}

/// One entry of a tree object.
#[derive(Debug)]
pub struct TreeItem {
    pub _mode: String,
    pub name: String,
    pub _hash: Vec<u8>,
}

impl View for TreeItem {
    type V = TreeItemView;

    open spec fn view(&self) -> TreeItemView {
        TreeItemView { mode: self._mode@, name: self.name@, hash: self._hash@ }
    }
}

pub open spec fn items_view(s: Seq<TreeItem>) -> Seq<TreeItemView> {
    s.map_values(|t: TreeItem| t@)
}

/// What parsing tree entries from `c[pos..]` yields: each entry is
/// `"<mode> <name>\0"` followed by 20 raw hash bytes, and entries run to the
/// end of the content.
pub open spec fn tree_items_spec(c: Seq<u8>, pos: int) -> Result<Seq<TreeItemView>, GitError>
    decreases c.len() - pos,
{
    if pos >= c.len() {
        Ok(Seq::empty())
    } else {
        match find_first(c, 0, pos) {
            None => Err(GitError::CorruptObject),
            Some(nul) => if !(pos <= nul < c.len()) {
                // find_first never returns such an index; this arm only
                // keeps the recursion visibly bounded.
                Err(GitError::CorruptObject)
            } else if nul + 21 > c.len() {
                Err(GitError::CorruptObject)
            } else {
                let line = c.subrange(pos, nul);
                match find_first(line, 32, 0) {
                    None => Err(GitError::CorruptObject),
                    Some(sp) => {
                        let mode = line.take(sp);
                        let name = line.skip(sp + 1);
                        if valid_utf8(mode) && valid_utf8(name) {
                            match tree_items_spec(c, nul + 21) {
                                Err(e) => Err(e),
                                Ok(rest) => Ok(
                                    seq![
                                        TreeItemView {
                                            mode: decode_utf8(mode),
                                            name: decode_utf8(name),
                                            hash: c.subrange(nul + 1, nul + 21),
                                        },
                                    ] + rest,
                                ),
                            }
                        } else {
                            Err(GitError::CorruptObject)
                        }
                    },
                }
            },
        }
    }
}

/// What reading a tree from its loose form yields: the declared size and
/// the entries in file order.
pub open spec fn tree_read_spec(bytes: Seq<u8>) -> Result<(nat, Seq<TreeItemView>), GitError> {
    match parse_loose(bytes) {
        Err(e) => Err(e),
        Ok((kind, content)) => if kind != ObjectKind::Tree {
            Err(GitError::CorruptObject)
        } else {
            match tree_items_spec(content, 0) {
                Err(e) => Err(e),
                Ok(items) => Ok((content.len(), items)),
            }
        },
    }
}

/// A tree object: a directory listing of named, hashed entries.
#[derive(Debug)]
pub struct TreeObject {
    pub _size: usize,
    pub items: Vec<TreeItem>,
}

impl TreeObject {
    /// Read a tree out of its decompressed loose form.
    pub fn read(input: &[u8]) -> (r: Result<Self, GitError>)
        ensures
            match r {
                Ok(t) => tree_read_spec(input@) == Ok::<_, GitError>(
                    (t._size as nat, items_view(t.items@)),
                ),
                Err(e) => tree_read_spec(input@) == Err::<(nat, Seq<TreeItemView>), _>(e),
            },
    {
        let (kind, content) = match decode_loose(input) {
            Err(e) => {
                return Err(e);
            },
            Ok(kc) => kc,
        };
        match kind {
            ObjectKind::Tree => {},
            _ => {
                return Err(GitError::CorruptObject);
            },
        }
        let size = content.len();
        let mut items: Vec<TreeItem> = Vec::new();
        let mut pos: usize = 0;
        proof {
            match tree_items_spec(content@, 0) {
                Ok(rest) => {
                    assert(items_view(items@) + rest =~= rest);
                },
                Err(_) => {},
            }
        }
        loop
            invariant
                pos <= content@.len(),
                size == content@.len(),
                parse_loose(input@) == Ok::<_, GitError>((ObjectKind::Tree, content@)),
                match tree_items_spec(content@, pos as int) {
                    Ok(rest) => tree_items_spec(content@, 0) == Ok::<_, GitError>(
                        items_view(items@) + rest,
                    ),
                    Err(e) => tree_items_spec(content@, 0) == Err::<Seq<TreeItemView>, _>(e),
                },
            decreases content@.len() - pos,
        {
            if pos >= content.len() {
                proof {
                    assert(items_view(items@) + Seq::<TreeItemView>::empty() =~= items_view(
                        items@,
                    ));
                }
                return Ok(TreeObject { _size: size, items });
            }
            let nul = match find_byte(content.as_slice(), 0, pos) {
                None => {
                    return Err(GitError::CorruptObject);
                },
                Some(i) => i,
            };
            if content.len() - nul < 21 {
                proof {
                    assert(tree_items_spec(content@, pos as int) == Err::<Seq<TreeItemView>, _>(
                        GitError::CorruptObject,
                    ));
                }
                return Err(GitError::CorruptObject);
            }
            let line = slice_subrange(content.as_slice(), pos, nul);
            let sp = match find_byte(line, 32, 0) {
                None => {
                    return Err(GitError::CorruptObject);
                },
                Some(i) => i,
            };
            let mode_bytes = slice_to_vec(slice_subrange(line, 0, sp));
            let name_bytes = slice_to_vec(slice_subrange(line, sp + 1, line.len()));
            proof {
                assert(mode_bytes@ =~= line@.take(sp as int));
                assert(name_bytes@ =~= line@.skip(sp + 1));
            }
            let mode = match utf8_to_string(mode_bytes) {
                None => {
                    return Err(GitError::CorruptObject);
                },
                Some(s) => s,
            };
            let name = match utf8_to_string(name_bytes) {
                None => {
                    return Err(GitError::CorruptObject);
                },
                Some(s) => s,
            };
            let hash = slice_to_vec(slice_subrange(content.as_slice(), nul + 1, nul + 21));
            let item = TreeItem { _mode: mode, name, _hash: hash };
            let ghost old_items = items@;
            items.push(item);
            proof {
                assert(items_view(items@) =~= items_view(old_items) + seq![item@]);
                match tree_items_spec(content@, nul + 21) {
                    Ok(rest) => {
                        assert(tree_items_spec(content@, pos as int) == Ok::<_, GitError>(
                            seq![item@] + rest,
                        ));
                        assert(items_view(old_items) + (seq![item@] + rest) =~= items_view(items@)
                            + rest);
                    },
                    Err(e) => {},
                }
            }
            pos = nul + 21;
        }
    }
}

/// One serialized tree entry: `"<mode> <name>\0"` then the 20 raw bytes of
/// the entry's hash.
pub open spec fn tree_entry_view(mode: Seq<u8>, name: Seq<u8>, hash: Seq<u8>) -> Seq<u8> {
    mode + seq![32u8] + name + seq![0u8] + hash
}

/// Serialize one tree entry.
pub fn tree_entry_bytes(mode: &[u8], name: &[u8], hash: &[u8]) -> (r: Vec<u8>)
    requires
        hash@.len() == 20,
    ensures
        r@ == tree_entry_view(mode@, name@, hash@),
{
    let mut r: Vec<u8> = Vec::new();
    r.extend_from_slice(mode);
    r.push(32);
    r.extend_from_slice(name);
    r.push(0);
    r.extend_from_slice(hash);
    proof {
        assert(r@ =~= tree_entry_view(mode@, name@, hash@));
    }
    r
}

/// A tree object's content: its serialized entries, one after the other, in
/// the order given. Callers hand the entries already sorted by name, as the
/// format demands.
pub open spec fn tree_content_spec(entries: Seq<(Seq<u8>, Seq<u8>, Seq<u8>)>) -> Seq<u8>
    decreases entries.len(),
{
    if entries.len() == 0 {
        Seq::empty()
    } else {
        tree_entry_view(entries[0].0, entries[0].1, entries[0].2) + tree_content_spec(
            entries.drop_first(),
        )
    }
}

/// Serialize a whole tree's content from `(mode, name, hash)` entries.
pub fn tree_content(entries: &Vec<(Vec<u8>, Vec<u8>, Vec<u8>)>) -> (r: Vec<u8>)
    requires
        forall|i: int| 0 <= i < entries@.len() ==> (#[trigger] entries@[i]).2@.len() == 20,
    ensures
        r@ == tree_content_spec(
            entries@.map_values(|e: (Vec<u8>, Vec<u8>, Vec<u8>)| (e.0@, e.1@, e.2@)),
        ),
{
    let ghost views = entries@.map_values(|e: (Vec<u8>, Vec<u8>, Vec<u8>)| (e.0@, e.1@, e.2@));
    let mut r: Vec<u8> = Vec::new();
    let mut i: usize = 0;
    proof {
        assert(r@ =~= Seq::<u8>::empty());
    }
    proof {
        assert(views.skip(0) =~= views);
        assert(Seq::<u8>::empty() + tree_content_spec(views) =~= tree_content_spec(views));
    }
    while i < entries.len()
        invariant
            i <= entries@.len(),
            views == entries@.map_values(|e: (Vec<u8>, Vec<u8>, Vec<u8>)| (e.0@, e.1@, e.2@)),
            forall|j: int| 0 <= j < entries@.len() ==> (#[trigger] entries@[j]).2@.len() == 20,
            tree_content_spec(views) == r@ + tree_content_spec(views.skip(i as int)),
        decreases entries@.len() - i,
    {
        let entry = &entries[i];
        let mut piece = tree_entry_bytes(
            entry.0.as_slice(),
            entry.1.as_slice(),
            entry.2.as_slice(),
        );
        let ghost old_r = r@;
        r.append(&mut piece);
        proof {
            assert(views.skip(i as int).drop_first() =~= views.skip(i + 1));
            assert(views.skip(i as int)[0] == (entries@[i as int].0@, entries@[i as int].1@,
                entries@[i as int].2@));
            assert(tree_content_spec(views) =~= r@ + tree_content_spec(views.skip(i + 1)));
        }
        i = i + 1;
    }
    proof {
        assert(views.skip(i as int) =~= Seq::<(Seq<u8>, Seq<u8>, Seq<u8>)>::empty());
        assert(tree_content_spec(views) =~= r@);
    }
    r
}

} // verus!
