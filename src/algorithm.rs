use vstd::prelude::*;

verus! {

/// A digest algorithm under which gitoids are computed.
#[derive(Clone, Copy, Debug, PartialEq, Eq, Structural)]
pub enum HashAlg {
    Sha1,
    Sha256,
}

/// The lowercase name of an algorithm, as it appears in a manifest header.
pub open spec fn alg_name(alg: HashAlg) -> Seq<u8> {
    match alg {
        // "sha1" and "sha256" in ASCII
        HashAlg::Sha1 => seq![115, 104, 97, 49],
        HashAlg::Sha256 => seq![115, 104, 97, 50, 53, 54],
    }
}

/// Number of bytes of a digest under `alg`.
pub open spec fn digest_len(alg: HashAlg) -> nat {
    match alg {
        HashAlg::Sha1 => 20,
        HashAlg::Sha256 => 32,
    }
}

/// Number of hex digits of a digest under `alg`: two per byte.
pub open spec fn hex_len(alg: HashAlg) -> nat {
    2 * digest_len(alg)
}

impl HashAlg {
    /// The lowercase name of the algorithm (`sha1`, `sha256`).
    pub fn name(&self) -> (r: Vec<u8>)
        ensures
            r@ == alg_name(*self),
    {
        match self {
            HashAlg::Sha1 => vec![115, 104, 97, 49],
            HashAlg::Sha256 => vec![115, 104, 97, 50, 53, 54],
        }
    }

    /// Number of hex digits of a digest under this algorithm (40 or 64).
    pub fn hex_len(&self) -> (r: usize)
        ensures
            r == hex_len(*self),
    {
        match self {
            HashAlg::Sha1 => 40,
            HashAlg::Sha256 => 64,
        }
    }
}

} // verus!
