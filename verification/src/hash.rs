//! Tagged hashing: the one construction behind every identity.

use sha2::Digest;
use vstd::prelude::*;
use vstd::slice::*;

verus! {

/// The SHA-256 digest of `data`.
pub uninterp spec fn sha256(data: Seq<u8>) -> Seq<u8>;

/// `sha2::Sha256::digest`: the SHA-256 digest of `data`, as 32 bytes. The
/// digest depends on the bytes alone; nothing else is claimed of it.
#[verifier::external_body]
fn sha256_digest(data: &[u8]) -> (res: [u8; 32])
    ensures
        res@ == sha256(data@),
{
    sha2::Sha256::digest(data).into()
}

/// The hash of `content` under `tag`: the digest of the tag's digest, twice,
/// followed by the content.
pub open spec fn tagged_hash(tag: Seq<u8>, content: Seq<u8>) -> Seq<u8> {
    sha256(sha256(tag) + sha256(tag) + content)
}

/// Appends the bytes of `from` to `to`.
pub fn append_bytes(to: &mut Vec<u8>, from: &[u8])
    ensures
        final(to)@ == old(to)@ + from@,
{
    let mut i: usize = 0;
    while i < from.len()
        invariant
            0 <= i <= from.len(),
            to@ == old(to)@ + from@.take(i as int),
        decreases from.len() - i,
    {
        to.push(from[i]);
        assert(from@.take(i + 1) =~= from@.take(i as int).push(from@[i as int]));
        i = i + 1;
    }
    assert(from@.take(i as int) =~= from@);
}

/// Appends the 32 bytes of `from` to `to`.
pub fn append_array(to: &mut Vec<u8>, from: &[u8; 32])
    ensures
        final(to)@ == old(to)@ + from@,
{
    let mut i: usize = 0;
    while i < 32
        invariant
            0 <= i <= 32,
            to@ == old(to)@ + from@.take(i as int),
        decreases 32 - i,
    {
        to.push(from[i]);
        assert(from@.take(i + 1) =~= from@.take(i as int).push(from@[i as int]));
        i = i + 1;
    }
    assert(from@.take(32) =~= from@);
}

/// Computes the hash of `content` under `tag`.
pub fn compute_tagged_hash(tag: &[u8], content: &[u8]) -> (res: [u8; 32])
    ensures
        res@ == tagged_hash(tag@, content@),
{
    let key = sha256_digest(tag);
    let mut buf: Vec<u8> = Vec::new();
    append_array(&mut buf, &key);
    append_array(&mut buf, &key);
    append_bytes(&mut buf, content);
    assert(buf@ =~= sha256(tag@) + sha256(tag@) + content@);
    sha256_digest(buf.as_slice())
}

} // verus!
