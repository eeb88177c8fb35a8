//! SHA256t: tagged SHA-256.
//!
//! A [`Hash`] is a 32-byte digest marked at the type level by the [`Tag`]
//! that produced it. Each tag supplies an engine already seeded with its own
//! domain-separation prefix, so identical payloads hashed under distinct
//! tags go through the compression function with distinct inputs. The
//! textual form shows the 32 bytes in reverse order, a compatibility
//! convention with legacy hex display.

use core::marker::PhantomData;

use vstd::prelude::*;

use crate::hex::{
    decode_core, format_hex_reverse, hex_decode, hex_of, lemma_hex_decode_ok, lemma_hex_roundtrip,
    utf8_len, FromHex, ToHex,
};
use crate::Error;

verus! {

/// The SHA-256 digest of the given bytes; a fixed function of its argument
/// alone.
pub uninterp spec fn sha256_of(data: Seq<u8>) -> Seq<u8>;

/// Relies on `sha2::Sha256` through the `Digest` trait: the digest depends
/// on the input bytes alone and is exactly 32 bytes long.
#[verifier::external_body]
fn sha256_digest(data: &[u8]) -> (r: Vec<u8>)
    ensures
        r@ == sha256_of(data@),
        r@.len() == 32,
{
    let d = <sha2::Sha256 as sha2::Digest>::digest(data);
    d.as_slice().to_vec()
}

/// An accumulator that absorbs bytes and is finalized, exactly once, to a
/// 32-byte digest. Its view is the whole byte sequence absorbed so far,
/// a tag's seed prefix included.
pub struct HashEngine {
    buf: Vec<u8>,
}

impl View for HashEngine {
    type V = Seq<u8>;

    closed spec fn view(&self) -> Seq<u8> {
        self.buf@
    }
}

impl HashEngine {
    /// A fresh accumulator with nothing absorbed.
    pub fn new() -> (e: HashEngine)
        ensures
            e@ == Seq::<u8>::empty(),
    {
        HashEngine { buf: Vec::new() }
    }

    /// Absorbs the given bytes after everything absorbed so far.
    pub fn input(&mut self, data: &[u8])
        ensures
            final(self)@ == old(self)@ + data@,
    {
        let ghost orig = self.buf@;
        let n: usize = data.len();
        let mut i: usize = 0;
        while i < n
            invariant
                i <= n,
                n == data@.len(),
                self.buf@ == orig + data@.take(i as int),
            decreases n - i,
        {
            self.buf.push(data[i]);
            proof {
                assert(self.buf@ =~= orig + data@.take(i + 1));
            }
            i += 1;
        }
        proof {
            assert(data@.take(n as int) =~= data@);
        }
    }
}

/// Trait representing a tag that can be used as a context for SHA256t
/// hashes.
pub trait Tag: Sized + Copy {
    /// The domain-separation bytes this tag's engine has absorbed before
    /// any caller data.
    spec fn spec_prefix() -> Seq<u8>;

    /// Returns a hash engine that is pre-tagged and is ready to be used
    /// for the data.
    fn engine() -> (e: HashEngine)
        ensures
            e@ == Self::spec_prefix(),
    ;
}

/// Output of the SHA256t hash function: exactly 32 bytes, plus the
/// compile-time tag. Equality and ordering are those of the raw bytes;
/// values produced under different tags have different types and never
/// compare at all.
#[derive(Copy, Debug, PartialEq, Eq, PartialOrd, Ord, Hash)]
pub struct Hash<T: Tag>([u8; 32], PhantomData<T>);

impl<T: Tag> Clone for Hash<T> {
    fn clone(&self) -> (r: Self)
        ensures
            r == *self,
    {
        *self
    }
}

impl<T: Tag> Default for Hash<T> {
    /// The all-zero hash value.
    fn default() -> (r: Self)
        ensures
            r@ == Seq::new(32, |i: int| 0u8),
    {
        let arr: [u8; 32] = [0u8; 32];
        proof {
            assert(arr@ =~= Seq::new(32, |i: int| 0u8));
        }
        Hash(arr, PhantomData)
    }
}

impl<T: Tag> View for Hash<T> {
    type V = Seq<u8>;

    closed spec fn view(&self) -> Seq<u8> {
        self.0@
    }
}

impl<T: Tag> Hash<T> {
    /// A fresh engine already seeded with this tag's prefix.
    pub fn engine() -> (e: HashEngine)
        ensures
            e@ == T::spec_prefix(),
    {
        T::engine()
    }

    /// Consumes the engine and wraps its 32-byte digest. This is the only
    /// path from live hashing to a hash value.
    pub fn from_engine(e: HashEngine) -> (r: Hash<T>)
        ensures
            r@ == sha256_of(e@),
    {
        let digest = sha256_digest(e.buf.as_slice());
        let mut arr: [u8; 32] = [0u8; 32];
        let mut i: usize = 0;
        while i < 32
            invariant
                i <= 32,
                digest@.len() == 32,
                forall|j: int| 0 <= j < i ==> arr@[j] == digest@[j],
            decreases 32 - i,
        {
            arr[i] = digest[i];
            i += 1;
        }
        proof {
            assert(arr@ =~= digest@);
        }
        Hash(arr, PhantomData)
    }

    /// Copies exactly 32 bytes verbatim, in storage order; any other
    /// length is rejected.
    pub fn from_slice(sl: &[u8]) -> (r: Result<Hash<T>, Error>)
        ensures
            (match r {
                Ok(h) => sl@.len() == 32 && h@ == sl@,
                Err(e) => sl@.len() != 32 && e == Error::InvalidLength(
                    32,
                    sl@.len() as usize,
                ),
            }),
    {
        if sl.len() != 32 {
            return Err(Error::InvalidLength(32, sl.len()));
        }
        let mut arr: [u8; 32] = [0u8; 32];
        let mut i: usize = 0;
        while i < 32
            invariant
                i <= 32,
                sl@.len() == 32,
                forall|j: int| 0 <= j < i ==> arr@[j] == sl@[j],
            decreases 32 - i,
        {
            arr[i] = sl[i];
            i += 1;
        }
        proof {
            assert(arr@ =~= sl@);
        }
        Ok(Hash(arr, PhantomData))
    }

    /// Unwraps the hash into its raw 32 bytes, in storage order.
    pub fn into_inner(self) -> (r: [u8; 32])
        ensures
            r@ == self@,
    {
        self.0
    }

    /// Wraps 32 raw bytes verbatim, in storage order.
    pub fn from_inner(inner: [u8; 32]) -> (r: Hash<T>)
        ensures
            r@ == inner@,
    {
        Hash(inner, PhantomData)
    }

    /// Read-only access to the raw 32 bytes, in storage order.
    pub fn as_bytes(&self) -> (r: &[u8; 32])
        ensures
            r@ == self@,
    {
        &self.0
    }
}

impl<T: Tag> ToHex for Hash<T> {
    /// The textual form: the 32 bytes hex-encoded in reverse order.
    open spec fn hex_repr(&self) -> Seq<char> {
        hex_of(self@.reverse())
    }

    fn to_hex(&self) -> (s: String) {
        let mut s = String::new();
        format_hex_reverse(self.0.as_slice(), &mut s);
        proof {
            assert(s@ =~= hex_of(self@.reverse()));
        }
        s
    }
}

impl<T: Tag> FromHex for Hash<T> {
    /// Parsing demands exactly 64 characters of hex text (as bytes), then
    /// decodes and reverses the 32 bytes before wrapping them.
    open spec fn from_hex_spec(s: Seq<char>) -> Result<Seq<u8>, Error> {
        if utf8_len(s) != 64 {
            Err(Error::InvalidLength(64, utf8_len(s)))
        } else {
            match hex_decode(s) {
                Err(e) => Err(e),
                Ok(v) => if v.len() == 32 {
                    Ok(v.reverse())
                } else {
                    Err(Error::InvalidLength(32, v.len() as usize))
                },
            }
        }
    }

    fn from_hex(s: &str) -> (r: Result<Self, Error>) {
        if s.len() != 64 {
            return Err(Error::InvalidLength(64, s.len()));
        }
        match decode_core(s) {
            Err(e) => Err(e),
            Ok(v) => {
                proof {
                    lemma_hex_decode_ok(s@);
                }
                let mut arr: [u8; 32] = [0u8; 32];
                let mut i: usize = 0;
                while i < 32
                    invariant
                        i <= 32,
                        v@.len() == 32,
                        forall|j: int| 0 <= j < i ==> arr@[j] == v@[31 - j],
                    decreases 32 - i,
                {
                    arr[i] = v[31 - i];
                    i += 1;
                }
                proof {
                    assert(arr@ =~= v@.reverse());
                }
                Ok(Hash(arr, PhantomData))
            },
        }
    }
}

/// Tagged-hash hex round-trip: the textual form of any 32-byte value is 64
/// characters long and parses back to the value itself.
pub proof fn lemma_hash_hex_roundtrip<T: Tag>(h: Seq<u8>)
    requires
        h.len() == 32,
    ensures
        hex_of(h.reverse()).len() == 64,
        <Hash<T> as FromHex>::from_hex_spec(hex_of(h.reverse())) == Ok::<Seq<u8>, Error>(h),
{
    let t = hex_of(h.reverse());
    lemma_hex_roundtrip(h.reverse());
    lemma_hex_decode_ok(t);
    assert(utf8_len(t) == 64);
    assert(h.reverse().reverse() =~= h);
}

/// Domain separation at the input level: engines seeded with distinct
/// prefixes absorb distinct totals for identical caller data, so the
/// compression function is applied to different inputs.
pub proof fn lemma_domain_separation(p1: Seq<u8>, p2: Seq<u8>, data: Seq<u8>)
    requires
        p1 != p2,
    ensures
        p1 + data != p2 + data,
{
    if p1.len() == p2.len() {
        if p1 + data == p2 + data {
            assert forall|i: int| 0 <= i < p1.len() implies p1[i] == p2[i] by {
                assert((p1 + data)[i] == p1[i]);
                assert((p2 + data)[i] == p2[i]);
            }
            assert(p1 =~= p2);
        }
    } else {
        assert((p1 + data).len() != (p2 + data).len());
    }
}

/// The two sample tags below seed their engines differently, so for
/// identical caller data their digests are taken over different inputs.
pub proof fn lemma_sample_tags_separate(data: Seq<u8>)
    ensures
        AlphaTag::spec_prefix() + data != BetaTag::spec_prefix() + data,
{
    assert(AlphaTag::spec_prefix().len() == 5);
    assert(BetaTag::spec_prefix().len() == 4);
    lemma_domain_separation(AlphaTag::spec_prefix(), BetaTag::spec_prefix(), data);
}

/// A sample tag whose engine absorbs the ASCII bytes of `"alpha"` before
/// any caller data.
#[derive(Copy, Clone, Debug, PartialEq, Eq, PartialOrd, Ord, Hash, Default)]
pub struct AlphaTag;

impl Tag for AlphaTag {
    open spec fn spec_prefix() -> Seq<u8> {
        seq![97u8, 108u8, 112u8, 104u8, 97u8]
    }

    fn engine() -> (e: HashEngine) {
        let mut e = HashEngine::new();
        let p: [u8; 5] = [97, 108, 112, 104, 97];
        e.input(p.as_slice());
        proof {
            assert(e@ =~= Self::spec_prefix());
        }
        e
    }
}

/// A sample tag whose engine absorbs the ASCII bytes of `"beta"` before
/// any caller data.
#[derive(Copy, Clone, Debug, PartialEq, Eq, PartialOrd, Ord, Hash, Default)]
pub struct BetaTag;

impl Tag for BetaTag {
    open spec fn spec_prefix() -> Seq<u8> {
        seq![98u8, 101u8, 116u8, 97u8]
    }

    fn engine() -> (e: HashEngine) {
        let mut e = HashEngine::new();
        let p: [u8; 4] = [98, 101, 116, 97];
        e.input(p.as_slice());
        proof {
            assert(e@ =~= Self::spec_prefix());
        }
        e
    }
}

} // verus!
