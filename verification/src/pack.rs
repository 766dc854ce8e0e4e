//! The packfile stream decoder.
//!
//! A packfile is a 4-byte signature, a big-endian version, a big-endian
//! entry count, and that many entries. Each entry opens with a size-and-type
//! varint; a literal entry continues with one self-terminating zlib stream,
//! a ref-delta entry with a 20-byte base hash and a zlib stream of delta
//! instructions. Decoded objects are persisted in the store as they appear,
//! so later deltas can name earlier objects as their base. The 20-byte
//! whole-file checksum after the last entry is not verified.
use vstd::prelude::*;

use crate::codec::{size_type_value, varint_value, ObjectSize, ObjectSizeType};
use crate::delta::{apply_delta, apply_delta_spec};
use crate::digest::{hex_lower, hex_of};
use crate::store::{store_read_spec, store_write_spec, Store};
use crate::zlib::{inflate_from, zlib_inflate};
use crate::GitError;
use crate::ObjectKind;
use vstd::slice::slice_subrange;

verus! {

/// Whether the plain reading of the varint at `data[pos]` fits a `usize`;
/// decoding rejects sizes the machine could not hold.
pub open spec fn header_fits(data: Seq<u8>, pos: int) -> bool {
    match varint_value(data, pos) {
        Some((raw, end)) => raw <= usize::MAX,
        None => false,
    }
}

/// The object kind a literal entry's type tag stands for.
pub open spec fn kind_of_tag(tag: u8) -> ObjectKind {
    if tag == 1 {
        ObjectKind::Commit
    } else if tag == 2 {
        ObjectKind::Tree
    } else {
        ObjectKind::Blob
    }
}

/// What decoding one packfile entry at `data[pos]` against the mapping `m`
/// does: the mapping afterwards, and either the position one past the entry
/// or the error that stops the decode.
///
/// A literal entry (tags one to three) must inflate to exactly its declared
/// size. A ref-delta entry (tag seven) names its base by hash, which must
/// already be stored, and must reconstruct to exactly the target size its
/// stream declares; the result is stored under the base's kind. Every other
/// tag is unsupported, and the stream cannot be resynchronized past it.
pub open spec fn decode_entry_spec(data: Seq<u8>, pos: int, m: Map<Seq<u8>, Seq<u8>>) -> (
    Map<Seq<u8>, Seq<u8>>,
    Result<int, GitError>,
) {
    match size_type_value(data, pos) {
        None => (m, Err(GitError::CorruptObject)),
        Some(((size, tag), p1)) => if !header_fits(data, pos) {
            (m, Err(GitError::CorruptObject))
        } else if tag == 1 || tag == 2 || tag == 3 {
            match zlib_inflate(data.skip(p1)) {
                None => (m, Err(GitError::CorruptObject)),
                Some((content, used)) => if content.len() != size {
                    (m, Err(GitError::CorruptObject))
                } else {
                    (store_write_spec(m, kind_of_tag(tag), content), Ok(p1 + used))
                },
            }
        } else if tag == 7 {
            if p1 + 20 > data.len() {
                (m, Err(GitError::CorruptObject))
            } else {
                let base_hash = hex_of(data.subrange(p1, p1 + 20));
                match zlib_inflate(data.skip(p1 + 20)) {
                    None => (m, Err(GitError::CorruptObject)),
                    Some((delta, used)) => match store_read_spec(m, base_hash) {
                        Err(e) => (m, Err(e)),
                        Ok((bkind, bcontent)) => match varint_value(delta, 0) {
                            None => (m, Err(GitError::CorruptObject)),
                            Some((bsz, q1)) => if bsz > usize::MAX {
                                (m, Err(GitError::CorruptObject))
                            } else {
                                match varint_value(delta, q1) {
                                    None => (m, Err(GitError::CorruptObject)),
                                    Some((tsz, q2)) => if tsz > usize::MAX {
                                        (m, Err(GitError::CorruptObject))
                                    } else {
                                        match apply_delta_spec(
                                            bcontent,
                                            tsz,
                                            delta,
                                            q2,
                                            Seq::empty(),
                                        ) {
                                            Err(e) => (m, Err(e)),
                                            Ok(target) => (
                                                store_write_spec(m, bkind, target),
                                                Ok(p1 + 20 + used),
                                            ),
                                        }
                                    },
                                }
                            },
                        },
                    },
                }
            }
        } else {
            (m, Err(GitError::UnsupportedObjectType))
        },
    }
}

/// Decode one packfile entry, persisting what it yields.
fn decode_entry(data: &[u8], pos: usize, store: &mut Store) -> (r: Result<usize, GitError>)
    ensures
        ({
            let (m1, res) = decode_entry_spec(data@, pos as int, old(store)@);
            &&& final(store)@ == m1
            &&& match r {
                Ok(np) => res == Ok::<int, GitError>(np as int) && pos < np <= data@.len(),
                Err(e) => res == Err::<int, GitError>(e),
            }
        }),
{
    let (st, p1) = match ObjectSizeType::try_parse(data, pos) {
        Err(e) => {
            return Err(e);
        },
        Ok(x) => x,
    };
    let size = st.size.0;
    let tag = st.object_type;
    if tag == 1 || tag == 2 || tag == 3 {
        let kind = if tag == 1 {
            ObjectKind::Commit
        } else if tag == 2 {
            ObjectKind::Tree
        } else {
            ObjectKind::Blob
        };
        let (content, end) = match inflate_from(data, p1) {
            None => {
                return Err(GitError::CorruptObject);
            },
            Some(x) => x,
        };
        if content.len() != size {
            return Err(GitError::CorruptObject);
        }
        let _hash = store.write(kind, content.as_slice());
        Ok(end)
    } else if tag == 7 {
        if 20 > data.len() - p1 {
            return Err(GitError::CorruptObject);
        }
        let base_hash = hex_lower(slice_subrange(data, p1, p1 + 20));
        let (delta, end) = match inflate_from(data, p1 + 20) {
            None => {
                return Err(GitError::CorruptObject);
            },
            Some(x) => x,
        };
        let (bkind, bcontent) = match store.read(base_hash.as_slice()) {
            Err(e) => {
                return Err(e);
            },
            Ok(x) => x,
        };
        let q1 = match ObjectSize::try_parse(delta.as_slice(), 0) {
            Err(e) => {
                return Err(e);
            },
            Ok(x) => x.1,
        };
        let (tsz, q2) = match ObjectSize::try_parse(delta.as_slice(), q1) {
            Err(e) => {
                return Err(e);
            },
            Ok(x) => (x.0.0, x.1),
        };
        let target = match apply_delta(bcontent.as_slice(), tsz, delta.as_slice(), q2) {
            Err(e) => {
                return Err(e);
            },
            Ok(t) => t,
        };
        let _hash = store.write(bkind, target.as_slice());
        Ok(end)
    } else {
        Err(GitError::UnsupportedObjectType)
    }
}

/// What decoding `n` entries in a row does to the mapping: entries are
/// decoded and persisted in order until the count is exhausted or one entry
/// fails, and a failure keeps everything persisted before it.
pub open spec fn decode_entries_spec(
    data: Seq<u8>,
    pos: int,
    n: nat,
    m: Map<Seq<u8>, Seq<u8>>,
) -> (Map<Seq<u8>, Seq<u8>>, Result<(), GitError>)
    decreases n,
{
    if n == 0 {
        (m, Ok(()))
    } else {
        let (m1, r) = decode_entry_spec(data, pos, m);
        match r {
            Err(e) => (m1, Err(e)),
            Ok(newpos) => decode_entries_spec(data, newpos, (n - 1) as nat, m1),
        }
    }
}

/// Decode `count` entries in a row, persisting each.
fn decode_entries(data: &[u8], start: usize, count: u32, store: &mut Store) -> (r: Result<
    (),
    GitError,
>)
    requires
        start <= data@.len(),
    ensures
        ({
            let (mfin, res) = decode_entries_spec(
                data@,
                start as int,
                count as nat,
                old(store)@,
            );
            final(store)@ == mfin && r == res
        }),
{
    let mut pos: usize = start;
    let mut i: u32 = 0;
    loop
        invariant
            i <= count,
            pos <= data@.len(),
            decode_entries_spec(data@, start as int, count as nat, old(store)@)
                == decode_entries_spec(data@, pos as int, (count - i) as nat, store@),
        decreases count - i,
    {
        if i == count {
            return Ok(());
        }
        match decode_entry(data, pos, store) {
            Err(e) => {
                return Err(e);
            },
            Ok(np) => {
                pos = np;
            },
        }
        i = i + 1;
    }
}

/// The 4-byte signature that opens a packfile: `"PACK"`.
pub open spec fn pack_signature() -> Seq<u8> {
    seq![80u8, 65u8, 67u8, 75u8]
}

/// The big-endian reading of four bytes.
pub open spec fn be_u32(b: Seq<u8>) -> nat {
    b[0] as nat * 0x1000000 + b[1] as nat * 0x10000 + b[2] as nat * 0x100 + b[3] as nat
}

/// What decoding a whole packfile at `data[pos..]` does to the mapping, and
/// the version and entry count it announces. The trailing checksum is not
/// read, let alone verified.
pub open spec fn decode_pack_spec(data: Seq<u8>, pos: int, m: Map<Seq<u8>, Seq<u8>>) -> (
    Map<Seq<u8>, Seq<u8>>,
    Result<(u32, u32), GitError>,
) {
    if pos + 12 > data.len() || data.subrange(pos, pos + 4) != pack_signature() {
        (m, Err(GitError::ProtocolError))
    } else {
        let version = be_u32(data.subrange(pos + 4, pos + 8));
        let count = be_u32(data.subrange(pos + 8, pos + 12));
        let (mfin, res) = decode_entries_spec(data, pos + 12, count, m);
        match res {
            Err(e) => (mfin, Err(e)),
            Ok(u) => (mfin, Ok((version as u32, count as u32))),
        }
    }
}

/// Read four big-endian bytes at `data[pos]`.
fn read_be_u32(data: &[u8], pos: usize) -> (r: u32)
    requires
        pos + 4 <= data@.len(),
    ensures
        r as nat == be_u32(data@.subrange(pos as int, pos + 4)),
{
    let b0 = data[pos] as u32;
    let b1 = data[pos + 1] as u32;
    let b2 = data[pos + 2] as u32;
    let b3 = data[pos + 3] as u32;
    let r = b0 * 0x1000000 + b1 * 0x10000 + b2 * 0x100 + b3;
    proof {
        let s = data@.subrange(pos as int, pos + 4);
        assert(s[0] == data@[pos as int] && s[1] == data@[pos + 1] && s[2] == data@[pos + 2]
            && s[3] == data@[pos + 3]);
    }
    r
}

/// Decode the packfile that starts at `data[pos]`, persisting every object
/// it carries, and return the version and entry count it announced.
pub fn decode_pack(data: &[u8], pos: usize, store: &mut Store) -> (r: Result<(u32, u32), GitError>)
    ensures
        ({
            let (mfin, res) = decode_pack_spec(data@, pos as int, old(store)@);
            final(store)@ == mfin && r == res
        }),
{
    if pos > data.len() || 12 > data.len() - pos {
        return Err(GitError::ProtocolError);
    }
    if !(data[pos] == 80 && data[pos + 1] == 65 && data[pos + 2] == 67 && data[pos + 3] == 75) {
        proof {
            let s = data@.subrange(pos as int, pos + 4);
            assert(s != pack_signature()) by {
                if s == pack_signature() {
                    assert(s[0] == 80 && s[1] == 65 && s[2] == 67 && s[3] == 75);
                }
            }
        }
        return Err(GitError::ProtocolError);
    }
    proof {
        assert(data@.subrange(pos as int, pos + 4) =~= pack_signature());
    }
    let version = read_be_u32(data, pos + 4);
    let count = read_be_u32(data, pos + 8);
    proof {
        assert(count as nat <= u32::MAX);
    }
    match decode_entries(data, pos + 12, count, store) {
        Err(e) => Err(e),
        Ok(()) => Ok((version, count)),
    }
}

} // verus!
