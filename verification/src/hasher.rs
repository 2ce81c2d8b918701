//! The content hash by which duplicates are recognised: SHA-256, written as lower-case
//! hexadecimal digits.
//!
//! The digest itself is computed by the `sha2` crate. What this module states of it is that it
//! is a function of the bytes fed in, and of nothing else: `sha256_hex`.

use vstd::prelude::*;

verus! {

/// The number of bytes that a caller is advised to read from a file at a time when it feeds
/// the content to a hasher.
pub const CHUNK_SIZE: usize = 8192;

/// A running SHA-256 computation.
#[verifier::external_body]
pub struct ContentHasher {
    state: sha2::Sha256,
}

/// The bytes that a hasher has been fed so far, in order.
pub uninterp spec fn absorbed(hasher: ContentHasher) -> Seq<u8>;

/// The SHA-256 digest of `data`, as 64 lower-case hexadecimal digits.
pub uninterp spec fn sha256_hex(data: Seq<u8>) -> Seq<char>;

/// Calls `sha2::Digest::new` for `Sha256`: a fresh hasher has been fed nothing.
#[verifier::external_body]
fn start() -> (hasher: ContentHasher)
    ensures
        absorbed(hasher) == Seq::<u8>::empty(),
{
    ContentHasher { state: sha2::Digest::new() }
}

/// Calls `sha2::Digest::update`: the chunk is added behind what the hasher was fed before.
#[verifier::external_body]
fn absorb(hasher: &mut ContentHasher, chunk: &[u8])
    ensures
        absorbed(*final(hasher)) == absorbed(*old(hasher)) + chunk@,
{
    sha2::Digest::update(&mut hasher.state, chunk)
}

/// Calls `sha2::Digest::finalize` and writes the digest in lower-case hexadecimal: the result
/// is the digest of the bytes fed in.
#[verifier::external_body]
fn finish(hasher: ContentHasher) -> (digest: String)
    ensures
        digest@ == sha256_hex(absorbed(hasher)),
{
    format!("{:x}", sha2::Digest::finalize(hasher.state))
}

/// The chunks put together, in order.
pub open spec fn joined_chunks(chunks: Seq<Vec<u8>>) -> Seq<u8> {
    chunks.map_values(|chunk: Vec<u8>| chunk@).flatten()
}

impl ContentHasher {
    /// The digest that `finalize` would return now.
    pub open spec fn digest(self) -> Seq<char> {
        sha256_hex(absorbed(self))
    }

    /// A hasher that has been fed nothing.
    pub fn new() -> (hasher: ContentHasher)
        ensures
            absorbed(hasher) == Seq::<u8>::empty(),
    {
        start()
    }

    /// Feeds the next chunk of the content.
    pub fn update(&mut self, chunk: &[u8])
        ensures
            absorbed(*final(self)) == absorbed(*old(self)) + chunk@,
    {
        absorb(self, chunk)
    }

    /// The digest of all that was fed in.
    pub fn finalize(self) -> (digest: String)
        ensures
            digest@ == self.digest(),
    {
        finish(self)
    }
}

/// The digest of a content that is given in one piece.
pub fn hash_bytes(data: &[u8]) -> (digest: String)
    ensures
        digest@ == sha256_hex(data@),
{
    let mut hasher = ContentHasher::new();
    hasher.update(data);
    assert(Seq::<u8>::empty() + data@ =~= data@);
    hasher.finalize()
}

/// The digest of a content that is given in chunks: it is the digest of the chunks put
/// together, however the content was cut.
pub fn hash_chunks(chunks: &Vec<Vec<u8>>) -> (digest: String)
    ensures
        digest@ == sha256_hex(joined_chunks(chunks@)),
{
    let mut hasher = ContentHasher::new();
    let mut i: usize = 0;
    assert(joined_chunks(chunks@.take(0)) =~= Seq::<u8>::empty());
    while i < chunks.len()
        invariant
            i <= chunks@.len(),
            absorbed(hasher) == joined_chunks(chunks@.take(i as int)),
        decreases chunks@.len() - i,
    {
        hasher.update(chunks[i].as_slice());
        proof {
            let views = chunks@.take(i as int).map_values(|chunk: Vec<u8>| chunk@);
            views.lemma_flatten_push(chunks@[i as int]@);
            assert(chunks@.take(i as int + 1).map_values(|chunk: Vec<u8>| chunk@) =~= views.push(
                chunks@[i as int]@,
            ));
        }
        i += 1;
    }
    assert(chunks@.take(i as int) =~= chunks@);
    hasher.finalize()
}

/// Two hashers that were fed the same bytes give the same digest, however the bytes were cut
/// into chunks: hashing an unchanged content again gives the same digest.
pub proof fn lemma_same_content_same_digest(first: ContentHasher, second: ContentHasher)
    requires
        absorbed(first) == absorbed(second),
    ensures
        first.digest() == second.digest(),
{
}

} // verus!
