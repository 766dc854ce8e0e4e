//! Delta reconstruction: rebuilding an object from a base object and a
//! stream of copy/insert instructions.
//!
//! An instruction byte with its high bit clear announces a literal insert:
//! its low seven bits count the raw bytes that follow. With the high bit
//! set, bits zero to three each gate one little-endian offset byte and bits
//! four to six each gate one little-endian size byte; absent bytes are zero,
//! and a fully absent size means 0x10000.
use vstd::prelude::*;

use crate::GitError;
use vstd::slice::{slice_subrange, slice_to_vec};

verus! {

/// The mathematical shape of one delta instruction.
pub enum DeltaOp {
    /// Append these bytes to the output.
    Insert { data: Seq<u8> },
    /// Append `size` bytes of the base, starting at `offset`.
    Copy { offset: nat, size: nat },
}

impl DeltaOp {
    /// How many output bytes the instruction produces.
    pub open spec fn op_size(self) -> nat {
        match self {
            DeltaOp::Insert { data } => data.len(),
            DeltaOp::Copy { offset, size } => size,
        }
    }
}

/// One when the bit of `h` with weight `w` is set, zero otherwise.
pub open spec fn bit_flag(h: u8, w: u8) -> int {
    if h / w % 2 == 1 {
        1
    } else {
        0
    }
}

/// The byte at `q` when `on`, zero when the byte is absent.
pub open spec fn gated_byte(bytes: Seq<u8>, on: bool, q: int) -> nat {
    if on {
        bytes[q] as nat
    } else {
        0
    }
}

/// Where the instruction that starts at `bytes[pos]` with a high-bit header
/// ends: one byte past the header and every present offset or size byte.
pub open spec fn copy_ref_end(bytes: Seq<u8>, pos: int) -> int {
    let h = bytes[pos];
    pos + 1 + bit_flag(h, 1) + bit_flag(h, 2) + bit_flag(h, 4) + bit_flag(h, 8) + bit_flag(h, 16)
        + bit_flag(h, 32) + bit_flag(h, 64)
}

/// The base offset of the copy instruction at `bytes[pos]`: up to four
/// little-endian bytes, each present only when its header bit is set.
pub open spec fn copy_ref_offset(bytes: Seq<u8>, pos: int) -> nat {
    let h = bytes[pos];
    let c0 = bit_flag(h, 1);
    let c1 = bit_flag(h, 2);
    let c2 = bit_flag(h, 4);
    gated_byte(bytes, c0 == 1, pos + 1) + gated_byte(bytes, c1 == 1, pos + 1 + c0) * 0x100
        + gated_byte(bytes, c2 == 1, pos + 1 + c0 + c1) * 0x10000 + gated_byte(
        bytes,
        bit_flag(h, 8) == 1,
        pos + 1 + c0 + c1 + c2,
    ) * 0x1000000
}

/// The raw size field of the copy instruction at `bytes[pos]`: up to three
/// little-endian bytes past the offset bytes, each present only when its
/// header bit is set. A raw size of zero stands for 0x10000.
pub open spec fn copy_ref_rawsize(bytes: Seq<u8>, pos: int) -> nat {
    let h = bytes[pos];
    let c0 = bit_flag(h, 1);
    let c1 = bit_flag(h, 2);
    let c2 = bit_flag(h, 4);
    let c3 = bit_flag(h, 8);
    let c4 = bit_flag(h, 16);
    let c5 = bit_flag(h, 32);
    let q = pos + 1 + c0 + c1 + c2 + c3;
    gated_byte(bytes, c4 == 1, q) + gated_byte(bytes, c5 == 1, q + c4) * 0x100 + gated_byte(
        bytes,
        bit_flag(h, 64) == 1,
        q + c4 + c5,
    ) * 0x10000
}

/// What decoding one instruction at `bytes[pos]` yields, and where the next
/// instruction starts. A zero header byte is reserved and rejected; running
/// out of bytes is `CorruptObject`.
pub open spec fn copy_command_spec(bytes: Seq<u8>, pos: int) -> Result<(DeltaOp, int), GitError> {
    if pos < 0 || pos >= bytes.len() {
        Err(GitError::CorruptObject)
    } else {
        let h = bytes[pos];
        if h == 0 {
            Err(GitError::CorruptObject)
        } else if h < 128 {
            if pos + 1 + h <= bytes.len() {
                Ok((DeltaOp::Insert { data: bytes.subrange(pos + 1, pos + 1 + h) }, pos + 1 + h))
            } else {
                Err(GitError::CorruptObject)
            }
        } else if copy_ref_end(bytes, pos) > bytes.len() {
            Err(GitError::CorruptObject)
        } else {
            let rawsize = copy_ref_rawsize(bytes, pos);
            let size: nat = if rawsize == 0 {
                0x10000
            } else {
                rawsize
            };
            Ok((DeltaOp::Copy { offset: copy_ref_offset(bytes, pos), size }, copy_ref_end(bytes, pos)))
        }
    }
}

/// One when the bit of `h` with weight `w` is set, zero otherwise.
fn bit_flag_exec(h: u8, w: u8) -> (r: usize)
    requires
        w > 0,
    ensures
        r == bit_flag(h, w),
        r <= 1,
{
    if h / w % 2 == 1 {
        1
    } else {
        0
    }
}

/// Read the byte at `q` when `on`; an absent byte stands for zero.
fn gated_byte_exec(input: &[u8], on: bool, q: usize) -> (r: usize)
    requires
        on ==> q < input@.len(),
    ensures
        r == gated_byte(input@, on, q as int),
        r <= 255,
{
    if on {
        input[q] as usize
    } else {
        0
    }
}

/// One delta instruction in executable form.
#[derive(Debug)]
pub enum CopyCommand {
    /// Copy `size` bytes of the base object starting at `offset`.
    FromReference { offset: usize, size: usize },
    /// Insert these bytes literally.
    Direct { data: Vec<u8> },
}

impl View for CopyCommand {
    type V = DeltaOp;

    open spec fn view(&self) -> DeltaOp {
        match self {
            CopyCommand::FromReference { offset, size } => DeltaOp::Copy {
                offset: *offset as nat,
                size: *size as nat,
            },
            CopyCommand::Direct { data } => DeltaOp::Insert { data: data@ },
        }
    }
}

/// Decode the byte-addressed half of a copy instruction: the presence-gated
/// offset and size that follow a header byte with its high bit set.
#[verifier::rlimit(100)]
fn parse_from_reference(input: &[u8], pos: usize) -> (r: Result<(CopyCommand, usize), GitError>)
    requires
        pos < input@.len(),
        input@[pos as int] >= 128,
    ensures
        match r {
            Ok((c, end)) => {
                &&& copy_command_spec(input@, pos as int) == Ok::<_, GitError>((c@, end as int))
                &&& pos < end <= input@.len()
            },
            Err(e) => copy_command_spec(input@, pos as int) == Err::<(DeltaOp, int), _>(e),
        },
{
    let h = input[pos];
    let c0 = bit_flag_exec(h, 1);
    let c1 = bit_flag_exec(h, 2);
    let c2 = bit_flag_exec(h, 4);
    let c3 = bit_flag_exec(h, 8);
    let c4 = bit_flag_exec(h, 16);
    let c5 = bit_flag_exec(h, 32);
    let c6 = bit_flag_exec(h, 64);
    let present = c0 + c1 + c2 + c3 + c4 + c5 + c6;
    proof {
        assert(copy_ref_end(input@, pos as int) == pos + 1 + present);
    }
    if present > input.len() - (pos + 1) {
        return Err(GitError::CorruptObject);
    }
    let end = pos + 1 + present;
    let o0 = gated_byte_exec(input, c0 == 1, pos + 1);
    let o1 = gated_byte_exec(input, c1 == 1, pos + 1 + c0);
    let o2 = gated_byte_exec(input, c2 == 1, pos + 1 + c0 + c1);
    let o3 = gated_byte_exec(input, c3 == 1, pos + 1 + c0 + c1 + c2);
    let s0 = gated_byte_exec(input, c4 == 1, pos + 1 + c0 + c1 + c2 + c3);
    let s1 = gated_byte_exec(input, c5 == 1, pos + 1 + c0 + c1 + c2 + c3 + c4);
    let s2 = gated_byte_exec(input, c6 == 1, pos + 1 + c0 + c1 + c2 + c3 + c4 + c5);
    let offset = o0 + o1 * 0x100 + o2 * 0x10000 + o3 * 0x1000000;
    let rawsize = s0 + s1 * 0x100 + s2 * 0x10000;
    proof {
        assert(offset == copy_ref_offset(input@, pos as int));
        assert(rawsize == copy_ref_rawsize(input@, pos as int));
    }
    let size: usize = if rawsize == 0 {
        0x10000
    } else {
        rawsize
    };
    Ok((CopyCommand::FromReference { offset, size }, end))
}

impl CopyCommand {
    /// Decode the instruction that starts at `input[pos]`.
    pub fn try_parse(input: &[u8], pos: usize) -> (r: Result<(CopyCommand, usize), GitError>)
        ensures
            match r {
                Ok((c, end)) => {
                    &&& copy_command_spec(input@, pos as int) == Ok::<_, GitError>(
                        (c@, end as int),
                    )
                    &&& pos < end <= input@.len()
                },
                Err(e) => copy_command_spec(input@, pos as int) == Err::<(DeltaOp, int), _>(e),
            },
    {
        if pos >= input.len() {
            return Err(GitError::CorruptObject);
        }
        let h = input[pos];
        if h == 0 {
            Err(GitError::CorruptObject)
        } else if h < 128 {
            let n = h as usize;
            if n > input.len() - (pos + 1) {
                return Err(GitError::CorruptObject);
            }
            let data = slice_to_vec(slice_subrange(input, pos + 1, pos + 1 + n));
            Ok((CopyCommand::Direct { data }, pos + 1 + n))
        } else {
            parse_from_reference(input, pos)
        }
    }

    /// How many output bytes this instruction produces.
    pub fn size(&self) -> (r: usize)
        ensures
            r as nat == self@.op_size(),
    {
        match self {
            CopyCommand::Direct { data } => data.len(),
            CopyCommand::FromReference { offset: _, size } => *size,
        }
    }
}

/// What reconstructing a target of `target` bytes from `base` and the
/// instructions at `instrs[pos..]` yields, with `acc` already produced.
/// Reconstruction succeeds exactly when the instructions are well formed,
/// every copy stays inside the base, and the output lands exactly on the
/// target size; overshooting it, or running out of instructions before it,
/// is `CorruptObject`.
pub open spec fn apply_delta_spec(
    base: Seq<u8>,
    target: nat,
    instrs: Seq<u8>,
    pos: int,
    acc: Seq<u8>,
) -> Result<Seq<u8>, GitError>
    decreases instrs.len() - pos,
{
    if acc.len() == target {
        Ok(acc)
    } else if acc.len() > target {
        Err(GitError::CorruptObject)
    } else {
        match copy_command_spec(instrs, pos) {
            Err(e) => Err(e),
            Ok((op, end)) => if !(pos < end <= instrs.len()) {
                // Decoding never yields such bounds; this arm only keeps
                // the recursion visibly bounded.
                Err(GitError::CorruptObject)
            } else {
                match op {
                    DeltaOp::Insert { data } => apply_delta_spec(
                        base,
                        target,
                        instrs,
                        end,
                        acc + data,
                    ),
                    DeltaOp::Copy { offset, size } => if offset + size <= base.len() {
                        apply_delta_spec(
                            base,
                            target,
                            instrs,
                            end,
                            acc + base.subrange(offset as int, (offset + size) as int),
                        )
                    } else {
                        Err(GitError::CorruptObject)
                    },
                }
            },
        }
    }
}

/// Rebuild a target of exactly `target_size` bytes from `base` and the
/// instruction stream starting at `instrs[start]`.
pub fn apply_delta(base: &[u8], target_size: usize, instrs: &[u8], start: usize) -> (r: Result<
    Vec<u8>,
    GitError,
>)
    ensures
        match r {
            Ok(out) => apply_delta_spec(
                base@,
                target_size as nat,
                instrs@,
                start as int,
                Seq::empty(),
            ) == Ok::<_, GitError>(out@),
            Err(e) => apply_delta_spec(
                base@,
                target_size as nat,
                instrs@,
                start as int,
                Seq::empty(),
            ) == Err::<Seq<u8>, _>(e),
        },
{
    let mut out: Vec<u8> = Vec::new();
    let mut pos: usize = start;
    proof {
        assert(out@ =~= Seq::<u8>::empty());
    }
    loop
        invariant
            start <= pos,
            apply_delta_spec(base@, target_size as nat, instrs@, start as int, Seq::empty())
                == apply_delta_spec(base@, target_size as nat, instrs@, pos as int, out@),
        decreases instrs@.len() - pos,
    {
        if out.len() == target_size {
            return Ok(out);
        }
        if out.len() > target_size {
            return Err(GitError::CorruptObject);
        }
        match CopyCommand::try_parse(instrs, pos) {
            Err(e) => {
                return Err(e);
            },
            Ok((cmd, end)) => {
                match cmd {
                    CopyCommand::Direct { data } => {
                        let mut d = data;
                        out.append(&mut d);
                    },
                    CopyCommand::FromReference { offset, size } => {
                        if offset > base.len() || size > base.len() - offset {
                            return Err(GitError::CorruptObject);
                        }
                        let mut piece = slice_to_vec(slice_subrange(base, offset, offset + size));
                        out.append(&mut piece);
                    },
                }
                pos = end;
            },
        }
    }
}

} // verus!
