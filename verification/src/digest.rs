use vstd::prelude::*;

use sha2::Digest;

use crate::encoding::enc_project;
use crate::encoding::encode_project;
use crate::model::Project;
use crate::model::ProjectView;
use crate::model::same_content;

verus! {

/// The SHA-256 digest of a byte sequence. The hash is a fixed function of its
/// input alone, so the result only carries a name here; nothing else is
/// assumed of it beyond its length.
pub uninterp spec fn sha256_of(data: Seq<u8>) -> Seq<u8>;

/// Relies on sha2::Sha256::digest: the 32-byte SHA-256 hash, a deterministic
/// function of the input bytes alone.
#[verifier::external_body]
fn sha256(data: &[u8]) -> (r: Vec<u8>)
    ensures
        r@ == sha256_of(data@),
        r@.len() == 32,
{
    sha2::Sha256::digest(data).to_vec()
}

/// One base-16 digit, lower case.
pub open spec fn hex_digit(n: u8) -> char
    recommends
        n < 16,
{
    if n < 10 {
        ((n + 48) as u8) as char
    } else {
        ((n + 87) as u8) as char
    }
}

/// Lower-case hexadecimal text for a byte sequence: two digits per byte,
/// high nibble first.
pub open spec fn hex_of(data: Seq<u8>) -> Seq<char>
    decreases data.len(),
{
    if data.len() == 0 {
        Seq::empty()
    } else {
        seq![hex_digit(data[0] / 16), hex_digit(data[0] % 16)] + hex_of(data.skip(1))
    }
}

/// Relies on hex::encode: lower-case hexadecimal, two digits per byte with
/// the high nibble first.
#[verifier::external_body]
fn hex_encode(data: &[u8]) -> (r: String)
    ensures
        r@ == hex_of(data@),
{
    hex::encode(data)
}

/// The content digest of a project record: the canonical encoding of every
/// field but the digest itself, hashed and written as hexadecimal text.
pub open spec fn digest_spec(p: ProjectView) -> Seq<char> {
    hex_of(sha256_of(enc_project(p)))
}

/// Computes the digest of a project record; the record itself is not touched.
pub fn compute_digest(p: &Project) -> (r: String)
    ensures
        r@ == digest_spec(p@),
{
    let encoded = encode_project(p);
    let hashed = sha256(encoded.as_slice());
    hex_encode(hashed.as_slice())
}

impl Project {
    /// Fills the digest field with the record's content digest; every other
    /// field keeps its value.
    pub fn set_digest(&mut self)
        ensures
            same_content(final(self)@, old(self)@),
            final(self)@.digest == Some(digest_spec(old(self)@)),
    {
        let d = compute_digest(self);
        self.digest = Some(d);
    }
}

/// A project record with the digest field filled from its own content.
pub open spec fn with_digest(p: ProjectView) -> ProjectView {
    ProjectView { digest: Some(digest_spec(p)), ..p }
}

/// Digest determinism: the digest is a function of a record's content alone.
/// Two records with the same fields and the same repository order get the
/// same digest, whatever either digest field held before.
pub proof fn lemma_digest_deterministic(a: ProjectView, b: ProjectView)
    requires
        same_content(a, b),
    ensures
        digest_spec(a) == digest_spec(b),
{
    assert(enc_project(a) == enc_project(b));
}

} // verus!
