//! The pairwise hash-combination rule both strategies depend on.
//!
//! A combinator merges a mandatory left digest and an optional right
//! digest into a parent digest. A missing right operand is always
//! handled by duplicating the left operand (the duplication rule),
//! never by substituting an empty value. The combinator is an
//! injectable capability, so callers can swap the cryptographic
//! combinator for one that makes tree shape observable.

use vstd::prelude::*;
use crate::Digest;

verus! {

/// The view of an optional borrowed digest.
pub open spec fn opt_view<H: View>(o: Option<&H>) -> Option<<H as View>::V> {
    match o {
        Some(h) => Some(h@),
        None => None,
    }
}

/// A pure, deterministic rule combining a left digest and an optional
/// right digest into a parent digest.
///
/// `combined` is the mathematical statement of the rule over digest
/// views; `combine` is its executable form, and must return exactly the
/// value `combined` describes.
pub trait Combinator<H: View>: Sized {
    /// What the combination of `left` and `right` is, as a value.
    spec fn combined(left: <H as View>::V, right: Option<<H as View>::V>) -> <H as View>::V;

    /// Combines the left digest with the optional right digest.
    fn combine(&self, left: &H, right: Option<&H>) -> (out: H)
        ensures
            out@ == Self::combined(left@, opt_view(right)),
    ;
}

/// What SHA-256 returns on a byte sequence. The result is a function of
/// the bytes alone; no shorter statement of it exists, so it is only
/// named here and every contract speaks through this name.
pub uninterp spec fn sha256_of(input: Seq<u8>) -> Seq<u8>;

/// Relies on sha2::Sha256 (the RustCrypto `Digest` interface): the
/// 32-byte SHA-256 digest of `input`, a deterministic function of the
/// input bytes alone.
#[verifier::external_body]
fn sha256(input: &Vec<u8>) -> (out: Digest)
    ensures
        out@ == sha256_of(input@),
{
    <sha2::Sha256 as sha2::Digest>::digest(input.as_slice()).into()
}

/// Calculates the hash of a node, given the left and right branch hashes.
///
/// The left branch must be present. If the right branch hash is `None`,
/// the left branch hash is duplicated and hashed with itself: the result
/// is always SHA-256 over exactly 64 bytes, `left || right` or
/// `left || left`.
pub fn hash(left: &Digest, right: Option<&Digest>) -> (out: Digest)
    ensures
        out@ == sha256_of(left@ + match right {
            Some(r) => r@,
            None => left@,
        }),
{
    let second: &Digest = match right {
        Some(r) => r,
        None => left,
    };
    let mut input: Vec<u8> = Vec::new();
    let mut i: usize = 0;
    while i < 32
        invariant
            i <= 32,
            input@ =~= left@.take(i as int),
        decreases 32 - i,
    {
        input.push(left[i]);
        i += 1;
    }
    let mut j: usize = 0;
    while j < 32
        invariant
            j <= 32,
            input@ =~= left@ + second@.take(j as int),
        decreases 32 - j,
    {
        input.push(second[j]);
        j += 1;
    }
    assert(input@ =~= left@ + second@);
    sha256(&input)
}

/// The cryptographic combinator: SHA-256 over the concatenation of the
/// left digest and the right (or duplicated left) digest.
pub struct Sha256Combinator;

impl Combinator<Digest> for Sha256Combinator {
    open spec fn combined(left: Seq<u8>, right: Option<Seq<u8>>) -> Seq<u8> {
        sha256_of(left + match right {
            Some(r) => r,
            None => left,
        })
    }

    fn combine(&self, left: &Digest, right: Option<&Digest>) -> (out: Digest) {
        hash(left, right)
    }
}

/// A non-cryptographic combinator that concatenates its operands,
/// duplicating the left one on a missing right operand. It makes the
/// tree shape observable in the root, which is what the tests need.
pub struct ConcatCombinator;

impl Combinator<Vec<char>> for ConcatCombinator {
    open spec fn combined(left: Seq<char>, right: Option<Seq<char>>) -> Seq<char> {
        left + match right {
            Some(r) => r,
            None => left,
        }
    }

    fn combine(&self, left: &Vec<char>, right: Option<&Vec<char>>) -> (out: Vec<char>) {
        let second: &Vec<char> = match right {
            Some(r) => r,
            None => left,
        };
        let mut out: Vec<char> = Vec::new();
        let mut i: usize = 0;
        while i < left.len()
            invariant
                i <= left@.len(),
                out@ =~= left@.take(i as int),
            decreases left@.len() - i,
        {
            out.push(left[i]);
            i += 1;
        }
        let mut j: usize = 0;
        while j < second.len()
            invariant
                j <= second@.len(),
                out@ =~= left@ + second@.take(j as int),
            decreases second@.len() - j,
        {
            out.push(second[j]);
            j += 1;
        }
        assert(out@ =~= left@ + second@);
        out
    }
}

} // verus!
