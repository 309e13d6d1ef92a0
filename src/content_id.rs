use vstd::prelude::*;

use crate::algorithm::{HashAlg, hex_len};
use crate::bytes::{all_lower_hex, is_lower_hex, push_all};

verus! {

/// The lowercase hex digest of the git blob object holding `content`,
/// that is, of `"blob " + decimal length + "\0" + content`, under `alg`.
pub uninterp spec fn blob_hex_of(alg: HashAlg, content: Seq<u8>) -> Seq<u8>;

/// Relies on gitoid's `GitOid::new_from_bytes` with `ObjectType::Blob`, read
/// back through `HashRef::as_hex` (hex::encode, lowercase): the digest of the
/// framed content, two hex digits per digest byte (20 bytes for SHA-1,
/// 32 for SHA-256). The result depends on `alg` and `content` alone.
#[verifier::external_body]
fn blob_gitoid_hex(alg: HashAlg, content: &[u8]) -> (r: Vec<u8>)
    ensures
        r@ == blob_hex_of(alg, content@),
        r@.len() == hex_len(alg),
        is_lower_hex(r@),
{
    let outside = match alg {
        HashAlg::Sha1 => gitoid::HashAlgorithm::Sha1,
        HashAlg::Sha256 => gitoid::HashAlgorithm::Sha256,
    };
    let oid = gitoid::GitOid::new_from_bytes(outside, gitoid::ObjectType::Blob, content);
    oid.hash().as_hex().into_bytes()
}

/// A content identifier (gitoid) in mathematical form.
pub struct IdView {
    pub alg: HashAlg,
    pub hex: Seq<u8>,
}

/// The identifier of a blob with bytes `content`, under `alg`.
pub open spec fn id_of(alg: HashAlg, content: Seq<u8>) -> IdView {
    IdView { alg, hex: blob_hex_of(alg, content) }
}

/// Is `hex` a well-formed digest under `alg`: the right length, lowercase hex?
pub open spec fn valid_hex(alg: HashAlg, hex: Seq<u8>) -> bool {
    hex.len() == hex_len(alg) && is_lower_hex(hex)
}

/// The two hex digits that name the shard directory of a digest.
pub open spec fn shard_of(hex: Seq<u8>) -> Seq<u8> {
    hex.subrange(0, 2)
}

/// The rest of a digest after its shard: the leaf file's name.
pub open spec fn rest_of(hex: Seq<u8>) -> Seq<u8> {
    hex.subrange(2, hex.len() as int)
}

/// The record that a store and a manifest hold for a digest:
/// `"blob " + hex + "\n"`.
pub open spec fn blob_line(hex: Seq<u8>) -> Seq<u8> {
    // "blob " in ASCII, then the digest and a newline
    seq![98, 108, 111, 98, 32] + hex + seq![10]
}

/// A content identifier: a hash algorithm and the lowercase hex digest of a
/// git blob under it. Two identifiers are equal when both parts are.
#[derive(Debug)]
pub struct ContentId {
    alg: HashAlg,
    hex: Vec<u8>,
}

impl View for ContentId {
    type V = IdView;

    closed spec fn view(&self) -> IdView {
        IdView { alg: self.alg, hex: self.hex@ }
    }
}

impl PartialEq for ContentId {
    fn eq(&self, o: &ContentId) -> (r: bool) {
        if self.alg != o.alg || self.hex.len() != o.hex.len() {
            return false;
        }
        let mut i: usize = 0;
        while i < self.hex.len()
            invariant
                self.hex@.len() == o.hex@.len(),
                0 <= i <= self.hex@.len(),
                forall|j: int| 0 <= j < i ==> self.hex@[j] == o.hex@[j],
            decreases self.hex@.len() - i,
        {
            if self.hex[i] != o.hex[i] {
                return false;
            }
            i = i + 1;
        }
        assert(self.hex@ =~= o.hex@);
        true
    }
}

impl vstd::std_specs::cmp::PartialEqSpecImpl for ContentId {
    open spec fn obeys_eq_spec() -> bool {
        true
    }

    open spec fn eq_spec(&self, o: &ContentId) -> bool {
        self@ == o@
    }
}

impl ContentId {
    /// A well-formed identifier has a digest of the length its algorithm
    /// gives, in lowercase hex.
    pub open spec fn wf(&self) -> bool {
        valid_hex(self@.alg, self@.hex)
    }

    /// Hashes `content` as a git blob under `alg`.
    pub fn of_blob(alg: HashAlg, content: &[u8]) -> (r: ContentId)
        ensures
            r@ == id_of(alg, content@),
            r.wf(),
    {
        ContentId { alg, hex: blob_gitoid_hex(alg, content) }
    }

    /// Takes a digest already computed under `alg`: `None` unless `hex` has
    /// the algorithm's length and holds lowercase hex digits only.
    pub fn from_hex(alg: HashAlg, hex: &[u8]) -> (r: Option<ContentId>)
        ensures
            r.is_some() <==> valid_hex(alg, hex@),
            r.is_some() ==> r.unwrap()@ == (IdView { alg, hex: hex@ }) && r.unwrap().wf(),
    {
        if hex.len() != alg.hex_len() || !all_lower_hex(hex) {
            return None;
        }
        let mut v: Vec<u8> = Vec::new();
        push_all(&mut v, hex);
        Some(ContentId { alg, hex: v })
    }

    /// The algorithm the digest was computed under.
    pub fn alg(&self) -> (r: HashAlg)
        ensures
            r == self@.alg,
    {
        self.alg
    }

    /// The digest in lowercase hex.
    pub fn hex(&self) -> (r: &[u8])
        ensures
            r@ == self@.hex,
    {
        self.hex.as_slice()
    }

    /// The shard: the first two hex digits of the digest.
    pub fn shard(&self) -> (r: Vec<u8>)
        requires
            self.wf(),
        ensures
            r@ == shard_of(self@.hex),
    {
        let mut r: Vec<u8> = Vec::new();
        r.push(self.hex[0]);
        r.push(self.hex[1]);
        assert(r@ == shard_of(self@.hex));
        r
    }

    /// The digest without its shard: the name of the leaf file.
    pub fn rest(&self) -> (r: Vec<u8>)
        requires
            self.wf(),
        ensures
            r@ == rest_of(self@.hex),
    {
        let mut r: Vec<u8> = Vec::new();
        let mut i: usize = 2;
        while i < self.hex.len()
            invariant
                2 <= i <= self.hex@.len(),
                r@ == self.hex@.subrange(2, i as int),
            decreases self.hex@.len() - i,
        {
            r.push(self.hex[i]);
            i = i + 1;
            proof {
                assert(self.hex@.subrange(2, i as int)
                    == self.hex@.subrange(2, i - 1).push(self.hex@[i - 1]));
            }
        }
        r
    }

    /// The record stored for this identifier: `"blob " + hex + "\n"`.
    pub fn blob_line(&self) -> (r: Vec<u8>)
        ensures
            r@ == blob_line(self@.hex),
    {
        let mut r: Vec<u8> = vec![98, 108, 111, 98, 32];
        push_all(&mut r, self.hex.as_slice());
        r.push(10);
        r
    }
}

/// Identifiers are a function of content: equal bytes hashed under one
/// algorithm give equal identifiers, whichever call or process computes
/// them.
pub proof fn lemma_id_deterministic(alg: HashAlg, a: Seq<u8>, b: Seq<u8>)
    requires
        a == b,
    ensures
        id_of(alg, a) == id_of(alg, b),
{
}

} // verus!
