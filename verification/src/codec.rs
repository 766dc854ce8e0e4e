//! The two variable-length integer encodings of the object layer.
//!
//! Loose-object headers carry an ASCII decimal length, terminated by a NUL.
//! Packfile entry headers carry a binary varint that interleaves a 3-bit type
//! tag with the low bits of the size: the first byte contributes the low four
//! size bits and the tag, every continuation byte contributes seven more bits.
use vstd::prelude::*;

use crate::GitError;

verus! {

// ---------------------------------------------------------------------------
// ASCII decimal
// ---------------------------------------------------------------------------
/// The canonical decimal rendering of `n`, most significant digit first,
/// without leading zeros (`0` renders as the single digit `0`).
pub open spec fn dec_bytes(n: nat) -> Seq<u8>
    decreases n,
{
    if n < 10 {
        seq![(48 + n) as u8]
    } else {
        dec_bytes(n / 10).push((48 + n % 10) as u8)
    }
}

/// True when `s` is a non-empty run of ASCII digits.
pub open spec fn is_dec_digits(s: Seq<u8>) -> bool {
    s.len() > 0 && (forall|i: int| 0 <= i < s.len() ==> 48 <= #[trigger] s[i] <= 57)
}

/// The unsigned value of the digit run `s`, most significant digit first.
pub open spec fn dec_value(s: Seq<u8>) -> nat
    decreases s.len(),
{
    if s.len() == 0 {
        0
    } else {
        dec_value(s.drop_last()) * 10 + (if s.last() >= 48 {
            (s.last() - 48) as nat
        } else {
            0
        })
    }
}

/// Rendering a number and reading the digits back yields the number.
pub proof fn lemma_dec_bytes_value(n: nat)
    ensures
        is_dec_digits(dec_bytes(n)),
        dec_value(dec_bytes(n)) == n,
    decreases n,
{
    if n < 10 {
        let s = dec_bytes(n);
        assert(s.len() == 1);
        assert(s.drop_last() =~= Seq::<u8>::empty());
        assert(dec_value(Seq::<u8>::empty()) == 0);
        assert(s.last() == (48 + n) as u8);
        assert(dec_value(s) == n);
    } else {
        assert(n % 10 < 10 && n / 10 >= 1 && n / 10 * 10 + n % 10 == n) by (nonlinear_arith)
            requires
                n >= 10,
        ;
        lemma_dec_bytes_value(n / 10);
        let s = dec_bytes(n);
        assert(s =~= dec_bytes(n / 10).push((48 + n % 10) as u8));
        assert(s.drop_last() =~= dec_bytes(n / 10));
        assert(forall|i: int| 0 <= i < s.len() ==> 48 <= #[trigger] s[i] <= 57);
    }
}

/// Render `n` in decimal.
pub fn format_dec(n: usize) -> (r: Vec<u8>)
    ensures
        r@ == dec_bytes(n as nat),
    decreases n,
{
    if n < 10 {
        let mut r: Vec<u8> = Vec::new();
        r.push(48 + (n as u8));
        proof {
            assert(r@ =~= dec_bytes(n as nat));
        }
        r
    } else {
        proof {
            assert(n / 10 < n && n % 10 < 10) by (nonlinear_arith)
                requires
                    n >= 10,
            ;
        }
        let mut r = format_dec(n / 10);
        r.push(48 + ((n % 10) as u8));
        r
    }
}

/// A value never shrinks when more digits are appended to its rendering.
proof fn lemma_dec_value_prefix_le(s: Seq<u8>, i: int)
    requires
        0 <= i <= s.len(),
    ensures
        dec_value(s.take(i)) <= dec_value(s),
    decreases s.len() - i,
{
    if i < s.len() {
        lemma_dec_value_prefix_le(s, i + 1);
        let t = s.take(i + 1);
        assert(t.drop_last() =~= s.take(i));
        assert(dec_value(s.take(i)) <= dec_value(t)) by (nonlinear_arith)
            requires
                dec_value(t) == dec_value(s.take(i)) * 10 + (if t.last() >= 48 {
                    (t.last() - 48) as nat
                } else {
                    0
                }),
        ;
    } else {
        assert(s.take(i) =~= s);
    }
}

/// Read a non-empty ASCII digit run as an unsigned value.
///
/// Fails when `s` is empty, holds a non-digit, or encodes a value that does
/// not fit a `usize`.
pub fn parse_dec(s: &[u8]) -> (r: Result<usize, GitError>)
    ensures
        match r {
            Ok(v) => is_dec_digits(s@) && v as nat == dec_value(s@) && dec_value(s@)
                <= usize::MAX,
            Err(e) => e == GitError::CorruptObject && (!is_dec_digits(s@) || dec_value(s@)
                > usize::MAX),
        },
{
    if s.len() == 0 {
        return Err(GitError::CorruptObject);
    }
    let mut acc: usize = 0;
    let mut i: usize = 0;
    while i < s.len()
        invariant
            0 <= i <= s@.len(),
            s@.len() > 0,
            acc as nat == dec_value(s@.take(i as int)),
            forall|j: int| 0 <= j < i ==> 48 <= #[trigger] s@[j] <= 57,
        decreases s@.len() - i,
    {
        let b = s[i];
        if b < 48 || b > 57 {
            return Err(GitError::CorruptObject);
        }
        let d = (b - 48) as usize;
        proof {
            assert(s@.take(i + 1).drop_last() =~= s@.take(i as int));
            assert(dec_value(s@.take(i + 1)) == dec_value(s@.take(i as int)) * 10 + d);
        }
        if acc > (usize::MAX - d) / 10 {
            proof {
                lemma_dec_value_prefix_le(s@, i + 1);
                assert(acc * 10 + d > usize::MAX) by (nonlinear_arith)
                    requires
                        acc > (usize::MAX - d) / 10,
                        d <= 9,
                ;
            }
            return Err(GitError::CorruptObject);
        }
        proof {
            assert(acc * 10 + d <= usize::MAX) by (nonlinear_arith)
                requires
                    acc <= (usize::MAX - d) / 10,
                    d <= 9,
            ;
        }
        acc = acc * 10 + d;
        i = i + 1;
    }
    proof {
        assert(s@.take(i as int) =~= s@);
    }
    Ok(acc)
}

// ---------------------------------------------------------------------------
// Packfile binary varints
// ---------------------------------------------------------------------------
/// The plain little-endian base-128 varint at `pos`: each byte contributes
/// its low seven bits, least significant chunk first, and its high bit says
/// whether another byte follows. `None` when the run leaves `bytes`.
pub open spec fn varint_value(bytes: Seq<u8>, pos: int) -> Option<(nat, int)>
    decreases bytes.len() - pos,
{
    if pos < 0 || pos >= bytes.len() {
        None
    } else {
        let b = bytes[pos];
        if b < 128 {
            Some((b as nat, pos + 1))
        } else {
            match varint_value(bytes, pos + 1) {
                None => None,
                Some((v, end)) => Some((((b - 128) as nat + v * 128) as nat, end)),
            }
        }
    }
}

/// The size field of a packfile varint, as the delta streams use it: plain
/// base-128, no embedded type tag.
#[derive(Debug)]
pub struct ObjectSize(pub usize);

impl ObjectSize {
    /// Decode the plain varint that starts at `input[pos]`.
    ///
    /// Fails when the run leaves the input or the value does not fit a
    /// `usize`.
    pub fn try_parse(input: &[u8], pos: usize) -> (r: Result<(ObjectSize, usize), GitError>)
        ensures
            match r {
                Ok((v, end)) => {
                    &&& varint_value(input@, pos as int) == Some((v.0 as nat, end as int))
                    &&& pos < end <= input@.len()
                },
                Err(e) => {
                    &&& e == GitError::CorruptObject
                    &&& match varint_value(input@, pos as int) {
                        None => true,
                        Some((v, _)) => v > usize::MAX,
                    }
                },
            },
        decreases input@.len() - pos,
    {
        if pos >= input.len() {
            return Err(GitError::CorruptObject);
        }
        let b = input[pos];
        if b < 128 {
            Ok((ObjectSize(b as usize), pos + 1))
        } else {
            match ObjectSize::try_parse(input, pos + 1) {
                Err(e) => Err(e),
                Ok((v, end)) => {
                    let c = (b - 128) as usize;
                    if v.0 > (usize::MAX - c) / 128 {
                        proof {
                            assert(c + v.0 * 128 > usize::MAX) by (nonlinear_arith)
                                requires
                                    v.0 > (usize::MAX - c) / 128,
                                    c < 128,
                            ;
                        }
                        Err(GitError::CorruptObject)
                    } else {
                        proof {
                            assert(c + v.0 * 128 <= usize::MAX) by (nonlinear_arith)
                                requires
                                    v.0 <= (usize::MAX - c) / 128,
                                    c < 128,
                            ;
                        }
                        Ok((ObjectSize(c + v.0 * 128), end))
                    }
                },
            }
        }
    }
}

/// The size-and-type varint that opens every packfile entry. The first byte
/// carries the low four size bits and the three type bits; continuation
/// bytes extend the size seven bits at a time, shifted past the low four.
pub open spec fn size_type_value(bytes: Seq<u8>, pos: int) -> Option<((nat, u8), int)> {
    if pos < 0 || pos >= bytes.len() {
        None
    } else {
        let b = bytes[pos];
        let low = (b % 16) as nat;
        let tag = ((b / 16) % 8) as u8;
        if b < 128 {
            Some(((low, tag), pos + 1))
        } else {
            match varint_value(bytes, pos + 1) {
                None => None,
                Some((v, end)) => Some(((low + v * 16, tag), end)),
            }
        }
    }
}

/// The size-and-type reading of a varint is a rearrangement of its plain
/// reading: the type tag sits in bits four to six of the plain value, and
/// the size is the low four bits joined to everything above bit seven.
proof fn lemma_size_type_from_varint(bytes: Seq<u8>, pos: int, v: nat, end: int)
    requires
        varint_value(bytes, pos) == Some((v, end)),
    ensures
        size_type_value(bytes, pos) == Some(((v % 16 + v / 128 * 16, ((v / 16) % 8) as u8), end)),
{
    let b = bytes[pos];
    if b < 128 {
        assert(v == b as nat);
        assert(v % 16 == b % 16 && v / 128 == 0 && (v / 16) % 8 == (b / 16) % 8) by (
        nonlinear_arith)
            requires
                v == b as nat,
                b < 128,
        ;
    } else {
        let inner = varint_value(bytes, pos + 1);
        let v1 = inner->Some_0.0;
        assert(v == (b - 128) as nat + v1 * 128);
        assert(v % 16 == b % 16) by (nonlinear_arith)
            requires
                v == (b - 128) as nat + v1 * 128,
                b >= 128,
        ;
        assert(v / 128 == v1) by (nonlinear_arith)
            requires
                v == (b - 128) as nat + v1 * 128,
                128 <= b < 256,
        ;
        assert((v / 16) % 8 == (b / 16) % 8) by (nonlinear_arith)
            requires
                v == (b - 128) as nat + v1 * 128,
                128 <= b < 256,
        ;
    }
}

/// The declared size and type tag of one packfile entry.
#[derive(Debug)]
pub struct ObjectSizeType {
    pub size: ObjectSize,
    pub object_type: u8,
}

impl ObjectSizeType {
    /// Decode the size-and-type varint that starts at `input[pos]`.
    ///
    /// Fails when the run leaves the input or its plain reading does not fit
    /// a `usize`.
    pub fn try_parse(input: &[u8], pos: usize) -> (r: Result<(ObjectSizeType, usize), GitError>)
        ensures
            match r {
                Ok((st, end)) => {
                    &&& size_type_value(input@, pos as int) == Some(
                        ((st.size.0 as nat, st.object_type), end as int),
                    )
                    &&& match varint_value(input@, pos as int) {
                        Some((raw, _)) => raw <= usize::MAX,
                        None => false,
                    }
                    &&& st.object_type < 8
                    &&& pos < end <= input@.len()
                },
                Err(e) => {
                    &&& e == GitError::CorruptObject
                    &&& match varint_value(input@, pos as int) {
                        None => true,
                        Some((v, _)) => v > usize::MAX,
                    }
                },
            },
    {
        match ObjectSize::try_parse(input, pos) {
            Err(e) => Err(e),
            Ok((raw, end)) => {
                let v = raw.0;
                let object_type = ((v / 16) % 8) as u8;
                let hi = v / 128;
                proof {
                    lemma_size_type_from_varint(input@, pos as int, v as nat, end as int);
                    assert(hi * 16 + v % 16 <= usize::MAX) by (nonlinear_arith)
                        requires
                            hi == v / 128,
                            v <= usize::MAX,
                    ;
                }
                let size = v % 16 + hi * 16;
                Ok((ObjectSizeType { size: ObjectSize(size), object_type }, end))
            },
        }
    }
}

} // verus!
