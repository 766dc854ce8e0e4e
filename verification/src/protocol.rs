//! The byte-level half of the smart-HTTP transfer protocol.
//!
//! Ref discovery returns pkt-line framed text whose second line carries the
//! remote HEAD; negotiation posts a fixed want/done body; the answer is one
//! `"NAK\n"` pkt-line followed, unframed, by the raw packfile. The HTTP
//! requests themselves happen outside this crate; these functions parse and
//! build the bytes that travel.
use vstd::prelude::*;

use crate::object::{find_byte, find_first};
use crate::pack::{decode_pack, decode_pack_spec};
use crate::store::Store;
use crate::GitError;
use vstd::slice::{slice_subrange, slice_to_vec};

verus! {

/// The pkt-line header of the ref-discovery service announcement: `"001e"`.
pub open spec fn refs_line1_prefix() -> Seq<u8> {
    seq![48u8, 48u8, 49u8, 101u8]
}

/// The flush marker that opens the second line: `"0000"`.
pub open spec fn flush_marker() -> Seq<u8> {
    seq![48u8, 48u8, 48u8, 48u8]
}

/// What the ref-discovery response yields: the 40 bytes that name the
/// remote HEAD, or `ProtocolError` when the framing is not as the protocol
/// promises. The first line must open with the `"001e"` announcement
/// header; the next line must open with a flush marker and a four-byte
/// pkt-line header, and carry at least 40 bytes of hash after them.
pub open spec fn parse_refs_spec(body: Seq<u8>) -> Result<Seq<u8>, GitError> {
    if body.len() < 4 || body.subrange(0, 4) != refs_line1_prefix() {
        Err(GitError::ProtocolError)
    } else {
        match find_first(body, 10, 0) {
            None => Err(GitError::ProtocolError),
            Some(nl) => {
                let rest = body.skip(nl + 1);
                if rest.len() < 48 || rest.subrange(0, 4) != flush_marker() {
                    Err(GitError::ProtocolError)
                } else {
                    match find_first(rest, 10, 0) {
                        Some(j) => if j < 48 {
                            Err(GitError::ProtocolError)
                        } else {
                            Ok(rest.subrange(8, 48))
                        },
                        None => Ok(rest.subrange(8, 48)),
                    }
                }
            },
        }
    }
}

/// Pull the remote HEAD's 40-byte hex name out of a ref-discovery response.
pub fn parse_refs_head(body: &[u8]) -> (r: Result<Vec<u8>, GitError>)
    ensures
        match r {
            Ok(head) => parse_refs_spec(body@) == Ok::<_, GitError>(head@) && head@.len() == 40,
            Err(e) => parse_refs_spec(body@) == Err::<Seq<u8>, _>(e),
        },
{
    if body.len() < 4 || !(body[0] == 48 && body[1] == 48 && body[2] == 49 && body[3] == 101) {
        proof {
            if body@.len() >= 4 && body@.subrange(0, 4) == refs_line1_prefix() {
                assert(body@.subrange(0, 4)[0] == 48 && body@.subrange(0, 4)[1] == 48
                    && body@.subrange(0, 4)[2] == 49 && body@.subrange(0, 4)[3] == 101);
            }
        }
        return Err(GitError::ProtocolError);
    }
    proof {
        assert(body@.subrange(0, 4) =~= refs_line1_prefix());
    }
    let nl = match find_byte(body, 10, 0) {
        None => {
            return Err(GitError::ProtocolError);
        },
        Some(i) => i,
    };
    let rest = slice_subrange(body, nl + 1, body.len());
    proof {
        assert(rest@ =~= body@.skip(nl + 1));
    }
    if rest.len() < 48 || !(rest[0] == 48 && rest[1] == 48 && rest[2] == 48 && rest[3] == 48) {
        proof {
            if rest@.len() >= 4 && rest@.subrange(0, 4) == flush_marker() {
                assert(rest@.subrange(0, 4)[0] == 48 && rest@.subrange(0, 4)[1] == 48
                    && rest@.subrange(0, 4)[2] == 48 && rest@.subrange(0, 4)[3] == 48);
            }
        }
        return Err(GitError::ProtocolError);
    }
    proof {
        assert(rest@.subrange(0, 4) =~= flush_marker());
    }
    match find_byte(rest, 10, 0) {
        Some(j) => {
            if j < 48 {
                return Err(GitError::ProtocolError);
            }
        },
        None => {},
    }
    let head = slice_to_vec(slice_subrange(rest, 8, 48));
    Ok(head)
}

/// The pkt-line framed negotiation body: one want line naming the head,
/// a flush marker, and a done line.
pub open spec fn upload_pack_body(head: Seq<u8>) -> Seq<u8> {
    seq![48u8, 48u8, 51u8, 50u8, 119u8, 97u8, 110u8, 116u8, 32u8] + head + seq![
        10u8,
        48u8,
        48u8,
        48u8,
        48u8,
        48u8,
        48u8,
        48u8,
        57u8,
        100u8,
        111u8,
        110u8,
        101u8,
        10u8,
    ]
}

/// Build the negotiation body that asks for everything reachable from
/// `head`: `"0032want <head>\n00000009done\n"`. The `0032` pkt-line header
/// counts the 40 bytes of the hash, so only a 40-byte head frames
/// correctly.
pub fn upload_pack_request(head: &[u8]) -> (r: Vec<u8>)
    requires
        head@.len() == 40,
    ensures
        r@ == upload_pack_body(head@),
{
    let mut r: Vec<u8> = Vec::new();
    // "0032want "
    r.push(48);
    r.push(48);
    r.push(51);
    r.push(50);
    r.push(119);
    r.push(97);
    r.push(110);
    r.push(116);
    r.push(32);
    r.extend_from_slice(head);
    // "\n00000009done\n"
    r.push(10);
    r.push(48);
    r.push(48);
    r.push(48);
    r.push(48);
    r.push(48);
    r.push(48);
    r.push(48);
    r.push(57);
    r.push(100);
    r.push(111);
    r.push(110);
    r.push(101);
    r.push(10);
    proof {
        assert(r@ =~= upload_pack_body(head@));
    }
    r
}

/// The acknowledgement that precedes the raw packfile: the pkt-line
/// `"0008NAK\n"`.
pub open spec fn nak_prefix() -> Seq<u8> {
    seq![48u8, 48u8, 48u8, 56u8, 78u8, 65u8, 75u8, 10u8]
}

/// What consuming a whole negotiation response does: after the `"NAK\n"`
/// pkt-line, the rest of the body is one packfile, and every object it
/// carries ends up in the mapping.
pub open spec fn pack_response_spec(body: Seq<u8>, m: Map<Seq<u8>, Seq<u8>>) -> (
    Map<Seq<u8>, Seq<u8>>,
    Result<(u32, u32), GitError>,
) {
    if body.len() < 8 || body.subrange(0, 8) != nak_prefix() {
        (m, Err(GitError::ProtocolError))
    } else {
        decode_pack_spec(body, 8, m)
    }
}

/// Decode a whole negotiation response into the store: check the `"NAK\n"`
/// acknowledgement, then decode the packfile behind it. Returns the pack's
/// version and entry count.
pub fn decode_pack_response(body: &[u8], store: &mut Store) -> (r: Result<(u32, u32), GitError>)
    ensures
        ({
            let (mfin, res) = pack_response_spec(body@, old(store)@);
            final(store)@ == mfin && r == res
        }),
{
    if body.len() < 8 {
        return Err(GitError::ProtocolError);
    }
    if !(body[0] == 48 && body[1] == 48 && body[2] == 48 && body[3] == 56 && body[4] == 78
        && body[5] == 65 && body[6] == 75 && body[7] == 10) {
        proof {
            if body@.subrange(0, 8) == nak_prefix() {
                let s = body@.subrange(0, 8);
                assert(s[0] == 48 && s[1] == 48 && s[2] == 48 && s[3] == 56 && s[4] == 78 && s[5]
                    == 65 && s[6] == 75 && s[7] == 10);
            }
        }
        return Err(GitError::ProtocolError);
    }
    proof {
        assert(body@.subrange(0, 8) =~= nak_prefix());
    }
    decode_pack(body, 8, store)
}

} // verus!
