//! A content-addressable object store together with the binary codecs and
//! protocol parsing needed to populate it from a remote repository: loose
//! objects, packfile entry headers, delta reconstruction, and the pkt-line
//! exchange that fetches a packfile.
use vstd::prelude::*;

pub mod codec;
pub mod delta;
pub mod digest;
pub mod object;
pub mod pack;
pub mod protocol;
pub mod store;
pub mod zlib;

verus! {

/// The failure taxonomy of the whole data layer. Every decoding or store
/// operation fails with exactly one of these kinds.
#[derive(Clone, Copy, Debug, PartialEq, Eq, Structural)]
pub enum GitError {
    /// A store read addressed a hash that no object has.
    ObjectNotFound,
    /// A declared size does not match the data, a delta overshoots or ends
    /// early, a copy reaches outside its base, or a stream is malformed.
    CorruptObject,
    /// A packfile entry carries a type tag this layer does not materialize.
    UnsupportedObjectType,
    /// A transfer response is not framed the way the protocol promises.
    ProtocolError,
}

impl GitError {
    /// A short human-readable description of the error kind.
    pub fn describe(&self) -> (r: &'static str)
        ensures
            r@ == self.describe_spec(),
    {
        match self {
            GitError::ObjectNotFound => "object not found",
            GitError::CorruptObject => "corrupt object",
            GitError::UnsupportedObjectType => "unsupported object type",
            GitError::ProtocolError => "protocol error",
        }
    }

    pub open spec fn describe_spec(self) -> Seq<char> {
        match self {
            GitError::ObjectNotFound => "object not found"@,
            GitError::CorruptObject => "corrupt object"@,
            GitError::UnsupportedObjectType => "unsupported object type"@,
            GitError::ProtocolError => "protocol error"@,
        }
    }
}

/// The kinds of object this layer materializes. Tag objects are recognized
/// in the wire format but never materialized.
#[derive(Clone, Copy, Debug, PartialEq, Eq, Structural)]
pub enum ObjectKind {
    Blob,
    Tree,
    Commit,
}

impl ObjectKind {
    /// The ASCII name that stands for this kind inside a canonical header.
    pub open spec fn name_bytes(self) -> Seq<u8> {
        match self {
            // "blob"
            ObjectKind::Blob => seq![98u8, 108u8, 111u8, 98u8],
            // "tree"
            ObjectKind::Tree => seq![116u8, 114u8, 101u8, 101u8],
            // "commit"
            ObjectKind::Commit => seq![99u8, 111u8, 109u8, 109u8, 105u8, 116u8],
        }
    }

    /// The kind name as bytes, e.g. `b"blob"`.
    pub fn name(&self) -> (r: Vec<u8>)
        ensures
            r@ == self.name_bytes(),
    {
        let mut r: Vec<u8> = Vec::new();
        match self {
            ObjectKind::Blob => {
                r.push(98);
                r.push(108);
                r.push(111);
                r.push(98);
            },
            ObjectKind::Tree => {
                r.push(116);
                r.push(114);
                r.push(101);
                r.push(101);
            },
            ObjectKind::Commit => {
                r.push(99);
                r.push(111);
                r.push(109);
                r.push(109);
                r.push(105);
                r.push(116);
            },
        }
        proof {
            assert(r@ =~= self.name_bytes());
        }
        r
    }
}

} // verus!
