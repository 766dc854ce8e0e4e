//! The content-addressable object store.
//!
//! An object's identity is the hex SHA-1 of its canonical loose form, and
//! the store maps that identity to the deflate-compressed loose form. This
//! model holds the mapping in memory; persisting each entry at its derived
//! path, and loading entries back, is the caller's side of the boundary.
use vstd::prelude::*;

use crate::digest::{hex_lower, sha1_digest, sha1_of};
use crate::object::{
    build_loose, decode_loose, loose_bytes, object_hash, parse_loose,
    lemma_parse_loose_inverts,
};
use crate::zlib::{deflate, inflate_from, zlib_deflate, zlib_inflate};
use crate::GitError;
use crate::ObjectKind;
use vstd::string::StrSliceExecFns;
use vstd::string::StringExecFns;

verus! {

/// Compare two byte runs.
pub fn bytes_eq(a: &[u8], b: &[u8]) -> (r: bool)
    ensures
        r == (a@ == b@),
{
    if a.len() != b.len() {
        return false;
    }
    let mut i: usize = 0;
    while i < a.len()
        invariant
            i <= a@.len(),
            a@.len() == b@.len(),
            forall|j: int| 0 <= j < i ==> a@[j] == b@[j],
        decreases a@.len() - i,
    {
        if a[i] != b[i] {
            return false;
        }
        i = i + 1;
    }
    proof {
        assert(a@ =~= b@);
    }
    true
}

/// The mapping that a run of `(hash, data)` entries stands for; when a hash
/// repeats, the earliest entry wins, as a scan from the front would find it.
pub open spec fn map_of(s: Seq<(Seq<u8>, Seq<u8>)>) -> Map<Seq<u8>, Seq<u8>>
    decreases s.len(),
{
    if s.len() == 0 {
        Map::empty()
    } else {
        map_of(s.drop_first()).insert(s[0].0, s[0].1)
    }
}

proof fn lemma_map_of_push(s: Seq<(Seq<u8>, Seq<u8>)>, k: Seq<u8>, v: Seq<u8>)
    ensures
        map_of(s.push((k, v))) == (if map_of(s).contains_key(k) {
            map_of(s)
        } else {
            map_of(s).insert(k, v)
        }),
    decreases s.len(),
{
    if s.len() == 0 {
        assert(s.push((k, v)).drop_first() =~= s);
        assert(map_of(s.push((k, v))) =~= map_of(s).insert(k, v));
    } else {
        assert(s.push((k, v)).drop_first() =~= s.drop_first().push((k, v)));
        lemma_map_of_push(s.drop_first(), k, v);
        if map_of(s.drop_first()).contains_key(k) {
            assert(map_of(s.push((k, v))) =~= map_of(s));
        } else if s[0].0 == k {
            assert(map_of(s.push((k, v))) =~= map_of(s));
        } else {
            assert(map_of(s.push((k, v))) =~= map_of(s).insert(k, v));
        }
    }
}

proof fn lemma_map_of_first(s: Seq<(Seq<u8>, Seq<u8>)>, i: int)
    requires
        0 <= i < s.len(),
        forall|j: int| 0 <= j < i ==> (#[trigger] s[j]).0 != s[i].0,
    ensures
        map_of(s).contains_key(s[i].0),
        map_of(s)[s[i].0] == s[i].1,
    decreases i,
{
    if i == 0 {
    } else {
        assert(forall|j: int|
            0 <= j < i - 1 ==> (#[trigger] s.drop_first()[j]).0 != s.drop_first()[i - 1].0);
        lemma_map_of_first(s.drop_first(), i - 1);
        assert(s[0].0 != s[i].0);
    }
}

proof fn lemma_map_of_absent(s: Seq<(Seq<u8>, Seq<u8>)>, k: Seq<u8>)
    requires
        forall|j: int| 0 <= j < s.len() ==> (#[trigger] s[j]).0 != k,
    ensures
        !map_of(s).contains_key(k),
    decreases s.len(),
{
    if s.len() > 0 {
        lemma_map_of_absent(s.drop_first(), k);
    }
}

/// What `write` does to the store's mapping: nothing when the hash is
/// already present, else it binds the hash to the compressed loose form.
pub open spec fn store_write_spec(
    m: Map<Seq<u8>, Seq<u8>>,
    kind: ObjectKind,
    content: Seq<u8>,
) -> Map<Seq<u8>, Seq<u8>> {
    if m.contains_key(object_hash(kind, content)) {
        m
    } else {
        m.insert(object_hash(kind, content), zlib_deflate(loose_bytes(kind, content)))
    }
}

/// What `read` yields from the store's mapping: `ObjectNotFound` for an
/// unbound hash, else the entry is inflated and parsed as a loose form.
pub open spec fn store_read_spec(m: Map<Seq<u8>, Seq<u8>>, h: Seq<u8>) -> Result<
    (ObjectKind, Seq<u8>),
    GitError,
> {
    if !m.contains_key(h) {
        Err(GitError::ObjectNotFound)
    } else {
        match zlib_inflate(m[h]) {
            None => Err(GitError::CorruptObject),
            Some((loose, used)) => parse_loose(loose),
        }
    }
}

/// Hash and compress an object without touching a store: the canonical
/// hash and the bytes a loose file would hold.
pub fn encode_loose(kind: ObjectKind, content: &[u8]) -> (r: (Vec<u8>, Vec<u8>))
    ensures
        r.0@ == object_hash(kind, content@),
        r.0@.len() == 40,
        r.1@ == zlib_deflate(loose_bytes(kind, content@)),
        zlib_inflate(r.1@) == Some::<(Seq<u8>, nat)>(
            (loose_bytes(kind, content@), r.1@.len() as nat),
        ),
{
    let loose = build_loose(kind, content);
    let digest = sha1_digest(loose.as_slice());
    let hash = hex_lower(digest.as_slice());
    let compressed = deflate(loose.as_slice());
    proof {
        crate::digest::lemma_hex_of_len(sha1_of(loose_bytes(kind, content@)));
        assert(compressed@ + Seq::<u8>::empty() =~= compressed@);
    }
    (hash, compressed)
}

/// The object store: each entry binds a 40-byte hex hash to the compressed
/// loose form stored under it.
pub struct Store {
    entries: Vec<(Vec<u8>, Vec<u8>)>,
}

impl Store {
    /// The entries in insertion order, hash then data.
    pub closed spec fn entry_seq(&self) -> Seq<(Seq<u8>, Seq<u8>)> {
        self.entries@.map_values(|p: (Vec<u8>, Vec<u8>)| (p.0@, p.1@))
    }
}

impl View for Store {
    type V = Map<Seq<u8>, Seq<u8>>;

    closed spec fn view(&self) -> Map<Seq<u8>, Seq<u8>> {
        map_of(self.entry_seq())
    }
}

impl Store {
    /// An empty store.
    pub fn new() -> (r: Store)
        ensures
            r@ == Map::<Seq<u8>, Seq<u8>>::empty(),
            r.entry_seq() == Seq::<(Seq<u8>, Seq<u8>)>::empty(),
    {
        let r = Store { entries: Vec::new() };
        proof {
            assert(r.entry_seq() =~= Seq::<(Seq<u8>, Seq<u8>)>::empty());
        }
        r
    }

    /// The index of the first entry under `hash`, if any.
    fn find_entry(&self, hash: &[u8]) -> (r: Option<usize>)
        ensures
            match r {
                Some(i) => {
                    &&& i < self.entry_seq().len()
                    &&& self.entry_seq()[i as int].0 == hash@
                    &&& self@.contains_key(hash@)
                    &&& self@[hash@] == self.entry_seq()[i as int].1
                },
                None => !self@.contains_key(hash@),
            },
    {
        let mut i: usize = 0;
        while i < self.entries.len()
            invariant
                i <= self.entries@.len(),
                forall|j: int| 0 <= j < i ==> (#[trigger] self.entry_seq()[j]).0 != hash@,
            decreases self.entries@.len() - i,
        {
            if bytes_eq(self.entries[i].0.as_slice(), hash) {
                proof {
                    lemma_map_of_first(self.entry_seq(), i as int);
                }
                return Some(i);
            }
            i = i + 1;
        }
        proof {
            lemma_map_of_absent(self.entry_seq(), hash@);
        }
        None
    }

    /// Whether an object with this hash is stored.
    pub fn contains(&self, hash: &[u8]) -> (r: bool)
        ensures
            r == self@.contains_key(hash@),
    {
        self.find_entry(hash).is_some()
    }

    /// Store an object and return its hash.
    ///
    /// The hash is a pure function of kind and content, so writing the same
    /// pair again finds the entry present and changes nothing: content
    /// addressing makes `write` idempotent.
    pub fn write(&mut self, kind: ObjectKind, content: &[u8]) -> (r: Vec<u8>)
        ensures
            r@ == object_hash(kind, content@),
            r@.len() == 40,
            final(self)@ == store_write_spec(old(self)@, kind, content@),
            !old(self)@.contains_key(object_hash(kind, content@)) ==> store_read_spec(
                final(self)@,
                r@,
            ) == Ok::<_, GitError>((kind, content@)),
    {
        let (hash, compressed) = encode_loose(kind, content);
        match self.find_entry(hash.as_slice()) {
            Some(_) => hash,
            None => {
                let ghost old_seq = self.entry_seq();
                let key = hex_lower(sha1_digest(build_loose(kind, content).as_slice()).as_slice());
                self.entries.push((key, compressed));
                proof {
                    assert(self.entry_seq() =~= old_seq.push(
                        (
                            object_hash(kind, content@),
                            zlib_deflate(loose_bytes(kind, content@)),
                        ),
                    ));
                    lemma_map_of_push(
                        old_seq,
                        object_hash(kind, content@),
                        zlib_deflate(loose_bytes(kind, content@)),
                    );
                    lemma_parse_loose_inverts(kind, content@);
                }
                hash
            },
        }
    }

    /// Read the object stored under `hash` back into its kind and content.
    pub fn read(&self, hash: &[u8]) -> (r: Result<(ObjectKind, Vec<u8>), GitError>)
        ensures
            match r {
                Ok((k, c)) => store_read_spec(self@, hash@) == Ok::<_, GitError>((k, c@)),
                Err(e) => store_read_spec(self@, hash@) == Err::<(ObjectKind, Seq<u8>), _>(e),
            },
    {
        let i = match self.find_entry(hash) {
            None => {
                return Err(GitError::ObjectNotFound);
            },
            Some(i) => i,
        };
        let data = &self.entries[i].1;
        match inflate_from(data.as_slice(), 0) {
            None => {
                proof {
                    assert(data@.skip(0) =~= data@);
                }
                Err(GitError::CorruptObject)
            },
            Some((loose, _end)) => {
                proof {
                    assert(data@.skip(0) =~= data@);
                }
                match decode_loose(loose.as_slice()) {
                    Err(e) => Err(e),
                    Ok(kc) => Ok(kc),
                }
            },
        }
    }

    /// Place raw compressed bytes under a hash, as loading a loose file
    /// from disk does. The bytes are taken as they are; `read` is where any
    /// corruption surfaces.
    pub fn insert_raw(&mut self, hash: Vec<u8>, data: Vec<u8>)
        requires
            !old(self)@.contains_key(hash@),
        ensures
            final(self)@ == old(self)@.insert(hash@, data@),
    {
        let ghost old_seq = self.entry_seq();
        let ghost k = hash@;
        let ghost v = data@;
        self.entries.push((hash, data));
        proof {
            assert(self.entry_seq() =~= old_seq.push((k, v)));
            lemma_map_of_push(old_seq, k, v);
        }
    }

    /// How many entries the store holds.
    pub fn object_count(&self) -> (r: usize)
        ensures
            r == self.entry_seq().len(),
    {
        self.entries.len()
    }

    /// The hash of the entry at `i`, in insertion order.
    pub fn entry_hash(&self, i: usize) -> (r: &Vec<u8>)
        requires
            i < self.entry_seq().len(),
        ensures
            r@ == self.entry_seq()[i as int].0,
    {
        &self.entries[i].0
    }

    /// The compressed bytes of the entry at `i`, in insertion order.
    pub fn entry_data(&self, i: usize) -> (r: &Vec<u8>)
        requires
            i < self.entry_seq().len(),
        ensures
            r@ == self.entry_seq()[i as int].1,
    {
        &self.entries[i].1
    }
}

/// Writing a pair twice is the same as writing it once; with `write`'s own
/// contract, which names the hash as a function of kind and content alone,
/// this is the store's idempotence and determinism.
pub proof fn lemma_write_idempotent(m: Map<Seq<u8>, Seq<u8>>, kind: ObjectKind, content: Seq<u8>)
    ensures
        store_write_spec(store_write_spec(m, kind, content), kind, content) == store_write_spec(
            m,
            kind,
            content,
        ),
{
}

/// Reading back what was just written yields exactly the kind and content
/// written. The compressor's round trip enters as a premise; the deflate
/// wrapper hands that very fact to every caller that compresses.
pub proof fn lemma_read_after_write(m: Map<Seq<u8>, Seq<u8>>, kind: ObjectKind, content: Seq<u8>)
    requires
        !m.contains_key(object_hash(kind, content)),
        zlib_inflate(zlib_deflate(loose_bytes(kind, content))) == Some::<(Seq<u8>, nat)>(
            (loose_bytes(kind, content), zlib_deflate(loose_bytes(kind, content)).len() as nat),
        ),
    ensures
        store_read_spec(store_write_spec(m, kind, content), object_hash(kind, content))
            == Ok::<_, GitError>((kind, content)),
{
    lemma_parse_loose_inverts(kind, content);
}

/// The path of a loose object below the repository root: the first two hex
/// characters name the fan-out directory, the rest name the file.
pub fn object_path_from_hash(hash: &str) -> (r: String)
    requires
        hash@.len() == 40,
        hash.is_ascii(),
    ensures
        r@ == ".git/objects/"@ + hash@.subrange(0, 2) + "/"@ + hash@.skip(2),
{
    let mut r = String::from_str(".git/objects/");
    r.append(hash.substring_ascii(0, 2));
    r.append("/");
    r.append(hash.substring_ascii(2, 40));
    proof {
        assert(hash@.subrange(2, 40) =~= hash@.skip(2));
    }
    r
}

} // verus!
