//! Content digests: SHA-256 of a file's bytes, fed chunk by chunk, written
//! as upper-case hexadecimal.
use vstd::prelude::*;
use ring::digest::{Context, SHA256};
use data_encoding::HEXUPPER;
use crate::grouping::{lemma_same_digest_same_group, Grouping};
use crate::text::digit_char;

verus! {

#[verifier::external_type_specification]
#[verifier::external_body]
pub struct ExContext(Context);

/// The SHA-256 digest of `data`.
pub uninterp spec fn sha256_of(data: Seq<u8>) -> Seq<u8>;

/// The bytes that a digest context has taken in so far.
pub uninterp spec fn context_input(c: Context) -> Seq<u8>;

/// The most bytes that a SHA-256 context can finish on: 2^64 bits.
pub const MAX_INPUT_BYTES: u64 = 0x2000_0000_0000_0000;

/// Upper-case hexadecimal digit of `n` (below 16).
pub open spec fn hex_char(n: nat) -> char {
    if n < 10 {
        digit_char(n)
    } else if n == 10 {
        'A'
    } else if n == 11 {
        'B'
    } else if n == 12 {
        'C'
    } else if n == 13 {
        'D'
    } else if n == 14 {
        'E'
    } else {
        'F'
    }
}

/// Two upper-case hexadecimal digits per byte, high digit first.
pub open spec fn hex_upper_of(b: Seq<u8>) -> Seq<char> {
    Seq::new(
        2 * b.len(),
        |i: int|
            if i % 2 == 0 {
                hex_char((b[i / 2] / 16) as nat)
            } else {
                hex_char((b[i / 2] % 16) as nat)
            },
    )
}

/// The digest text of a content: its SHA-256 in upper-case hexadecimal.
pub open spec fn digest_text(data: Seq<u8>) -> Seq<char> {
    hex_upper_of(sha256_of(data))
}

/// Relies on `ring::digest::Context::new(&SHA256)`: a SHA-256 context that
/// has taken in nothing.
#[verifier::external_body]
fn context_new() -> (r: Context)
    ensures
        context_input(r) == Seq::<u8>::empty(),
{
    Context::new(&SHA256)
}

/// Relies on `ring::digest::Context::update`: the context takes in `data`
/// after what it had.
#[verifier::external_body]
fn context_update(c: &mut Context, data: &[u8])
    ensures
        context_input(*final(c)) == context_input(*old(c)) + data@,
{
    c.update(data)
}

/// Relies on `ring::digest::Context::finish` and `Digest::as_ref`: the 32
/// bytes of the SHA-256 of all the context took in. It panics on more than
/// 2^64 bits.
#[verifier::external_body]
fn context_finish(c: Context) -> (r: Vec<u8>)
    requires
        context_input(c).len() < MAX_INPUT_BYTES,
    ensures
        r@ == sha256_of(context_input(c)),
        r@.len() == 32,
{
    c.finish().as_ref().to_vec()
}

/// Relies on `data_encoding::HEXUPPER.encode`: base16 with the symbols
/// `0-9A-F`, two per byte, high nibble first.
#[verifier::external_body]
fn hex_upper(b: &[u8]) -> (r: String)
    ensures
        r@ == hex_upper_of(b@),
{
    HEXUPPER.encode(b)
}

/// Computes the digest text of a content fed in chunks.
pub struct ContentHasher {
    ctx: Context,
}

impl View for ContentHasher {
    type V = Seq<u8>;

    /// The bytes fed so far.
    closed spec fn view(&self) -> Seq<u8> {
        context_input(self.ctx)
    }
}

impl ContentHasher {
    /// A hasher that has been fed nothing.
    pub fn new() -> (r: ContentHasher)
        ensures
            r@ == Seq::<u8>::empty(),
    {
        ContentHasher { ctx: context_new() }
    }

    /// Feeds the next chunk; returns whether there may be more, that is
    /// whether the chunk was not empty (an empty read marks the end).
    pub fn feed(&mut self, chunk: &[u8]) -> (more: bool)
        ensures
            final(self)@ == old(self)@ + chunk@,
            more == (chunk@.len() > 0),
    {
        context_update(&mut self.ctx, chunk);
        chunk.len() > 0
    }

    /// The digest text of all that was fed.
    pub fn finish(self) -> (r: String)
        requires
            self@.len() < MAX_INPUT_BYTES,
        ensures
            r@ == digest_text(self@),
            r@.len() == 64,
    {
        let bytes = context_finish(self.ctx);
        hex_upper(bytes.as_slice())
    }
}

/// Two files added with the digest texts of byte-identical contents stand
/// in the same group.
pub proof fn lemma_same_content_same_group(g: &Grouping, k1: int, k2: int, c1: Seq<u8>, c2: Seq<u8>)
    requires
        g.wf(),
        0 <= k1 < g.added@.len(),
        0 <= k2 < g.added@.len(),
        g.added@[k1].0 == digest_text(c1),
        g.added@[k2].0 == digest_text(c2),
        c1 == c2,
    ensures
        exists|i: int|
            0 <= i < g.groups@.len() && (#[trigger] g.groups@[i]).files@.contains(g.added@[k1].1)
                && g.groups@[i].files@.contains(g.added@[k2].1),
{
    lemma_same_digest_same_group(g, k1, k2);
}

} // verus!
