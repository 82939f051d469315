//! The deterministic random stream of the engine.
//!
//! A generator is a ChaCha20 keystream keyed by the SHA-256 digest of a seed
//! followed by entropy. The library keeps the generator as plain values (seed,
//! entropy and the position in the stream); every draw is made by the
//! generator of `secret_toolkit`, positioned where the last draw ended.
use base64::engine::general_purpose;
use base64::Engine;
use rand::seq::SliceRandom;
use rand_core::RngCore;
use secret_toolkit::crypto::ContractPrng;
use vstd::prelude::*;

verus! {

/// The SHA-256 digest of a byte string.
pub uninterp spec fn sha256(data: Seq<u8>) -> Seq<u8>;

/// The standard, padded base64 text of a byte string, as bytes.
pub uninterp spec fn base64_text(data: Seq<u8>) -> Seq<u8>;

/// The 64-bit word that the keystream of `(seed, entropy)` gives at word
/// position `pos`, and the position after it.
pub uninterp spec fn stream_u64(seed: Seq<u8>, entropy: Seq<u8>, pos: u128) -> (u64, u128);

/// The 32 bytes that the keystream of `(seed, entropy)` gives at word position
/// `pos`, and the position after them.
pub uninterp spec fn stream_bytes(seed: Seq<u8>, entropy: Seq<u8>, pos: u128) -> (Seq<u8>, u128);

/// The order into which the keystream of `(seed, entropy)`, read from word
/// position `pos`, shuffles `items`, and the position after the shuffle.
pub uninterp spec fn stream_shuffle(
    seed: Seq<u8>,
    entropy: Seq<u8>,
    pos: u128,
    items: Seq<u8>,
) -> (Seq<u8>, u128);

/// `secret_toolkit::crypto::sha_256`: the digest is 32 bytes long and depends
/// on the data alone.
#[verifier::external_body]
fn digest(data: &Vec<u8>) -> (out: [u8; 32])
    ensures
        out@ == sha256(data@),
{
    secret_toolkit::crypto::sha_256(data.as_slice())
}

/// `Engine::encode` of base64's `STANDARD` engine: the text depends on the
/// data alone. The call fails on data whose encoded length does not fit in
/// `usize`, which the bound on the data's length rules out.
#[verifier::external_body]
fn encode_base64(data: &Vec<u8>) -> (out: Vec<u8>)
    requires
        data@.len() <= usize::MAX / 2,
    ensures
        out@ == base64_text(data@),
{
    general_purpose::STANDARD.encode(data.as_slice()).into_bytes()
}

/// `RngCore::next_u64` on the generator that `ContractPrng::new` makes of
/// `(seed, entropy)`, moved to word `pos` by `set_word_pos`; with the value
/// comes what `get_word_pos` reports after the draw.
#[verifier::external_body]
fn draw_u64(seed: &Vec<u8>, entropy: &Vec<u8>, pos: u128) -> (out: (u64, u128))
    ensures
        out == stream_u64(seed@, entropy@, pos),
{
    let mut prng = ContractPrng::new(seed.as_slice(), entropy.as_slice());
    prng.rng.set_word_pos(pos);
    let value = prng.next_u64();
    (value, prng.rng.get_word_pos())
}

/// `ContractPrng::rand_bytes` on the generator that `ContractPrng::new` makes
/// of `(seed, entropy)`, moved to word `pos`; with the bytes comes what
/// `get_word_pos` reports after the draw.
#[verifier::external_body]
fn draw_bytes(seed: &Vec<u8>, entropy: &Vec<u8>, pos: u128) -> (out: ([u8; 32], u128))
    ensures
        (out.0@, out.1) == stream_bytes(seed@, entropy@, pos),
{
    let mut prng = ContractPrng::new(seed.as_slice(), entropy.as_slice());
    prng.rng.set_word_pos(pos);
    let bytes = prng.rand_bytes();
    (bytes, prng.rng.get_word_pos())
}

/// `SliceRandom::shuffle` with the generator that `ContractPrng::new` makes
/// of `(seed, entropy)`, moved to word `pos`. The shuffle only swaps items, so
/// the list keeps its items and its length; returned is what `get_word_pos`
/// reports after it.
#[verifier::external_body]
fn draw_shuffle(seed: &Vec<u8>, entropy: &Vec<u8>, pos: u128, items: &mut Vec<u8>) -> (end: u128)
    ensures
        (final(items)@, end) == stream_shuffle(seed@, entropy@, pos, old(items)@),
        final(items)@.to_multiset() == old(items)@.to_multiset(),
        final(items)@.len() == old(items)@.len(),
{
    let mut prng = ContractPrng::new(seed.as_slice(), entropy.as_slice());
    prng.rng.set_word_pos(pos);
    items.shuffle(&mut prng.rng);
    prng.rng.get_word_pos()
}

/// What a generator is: its seed, its entropy and the word of the keystream
/// at which the next draw starts.
pub struct PrngModel {
    pub seed: Seq<u8>,
    pub entropy: Seq<u8>,
    pub pos: u128,
}

/// A generator over the keystream of a seed and entropy.
pub struct Prng {
    seed: Vec<u8>,
    entropy: Vec<u8>,
    pos: u128,
}

impl View for Prng {
    type V = PrngModel;

    closed spec fn view(&self) -> PrngModel {
        PrngModel { seed: self.seed@, entropy: self.entropy@, pos: self.pos }
    }
}

impl PrngModel {
    /// The generator after one 64-bit draw.
    pub open spec fn after_u64(self) -> PrngModel {
        PrngModel { pos: stream_u64(self.seed, self.entropy, self.pos).1, ..self }
    }

    /// The value of the next 64-bit draw.
    pub open spec fn peek_u64(self) -> u64 {
        stream_u64(self.seed, self.entropy, self.pos).0
    }

    /// The generator after a draw of 32 bytes.
    pub open spec fn after_bytes(self) -> PrngModel {
        PrngModel { pos: stream_bytes(self.seed, self.entropy, self.pos).1, ..self }
    }

    /// The next 32 bytes.
    pub open spec fn peek_bytes(self) -> Seq<u8> {
        stream_bytes(self.seed, self.entropy, self.pos).0
    }

    /// The generator after shuffling `items`.
    pub open spec fn after_shuffle(self, items: Seq<u8>) -> PrngModel {
        PrngModel { pos: stream_shuffle(self.seed, self.entropy, self.pos, items).1, ..self }
    }

    /// The order into which the next shuffle puts `items`. A shuffle only
    /// moves items: an order that holds anything else than the items, which
    /// no generator gives, reads as the items unmoved.
    pub open spec fn peek_shuffle(self, items: Seq<u8>) -> Seq<u8> {
        let order = stream_shuffle(self.seed, self.entropy, self.pos, items).0;
        if order.to_multiset() == items.to_multiset() {
            order
        } else {
            items
        }
    }

    /// The generator after `n` 64-bit draws.
    pub open spec fn after_draws(self, n: nat) -> PrngModel
        decreases n,
    {
        if n == 0 {
            self
        } else {
            self.after_u64().after_draws((n - 1) as nat)
        }
    }
}

impl Prng {
    /// A generator at the start of the keystream of `(seed, entropy)`.
    pub fn new(seed: Vec<u8>, entropy: Vec<u8>) -> (prng: Prng)
        ensures
            prng@ == (PrngModel { seed: seed@, entropy: entropy@, pos: 0 }),
    {
        Prng { seed, entropy, pos: 0 }
    }

    /// The position in the keystream, in 32-bit words.
    pub fn word_pos(&self) -> (pos: u128)
        ensures
            pos == self@.pos,
    {
        self.pos
    }

    /// Moves the generator to a word of the keystream.
    pub fn set_word_pos(&mut self, pos: u128)
        ensures
            final(self)@ == (PrngModel { pos, ..old(self)@ }),
    {
        self.pos = pos;
    }

    /// Draws a 64-bit number.
    pub fn next_u64(&mut self) -> (value: u64)
        ensures
            value == old(self)@.peek_u64(),
            final(self)@ == old(self)@.after_u64(),
    {
        let (value, end) = draw_u64(&self.seed, &self.entropy, self.pos);
        self.pos = end;
        value
    }

    /// Draws 32 bytes.
    pub fn rand_bytes(&mut self) -> (bytes: [u8; 32])
        ensures
            bytes@ == old(self)@.peek_bytes(),
            final(self)@ == old(self)@.after_bytes(),
    {
        let (bytes, end) = draw_bytes(&self.seed, &self.entropy, self.pos);
        self.pos = end;
        bytes
    }

    /// Shuffles a list in place.
    pub fn shuffle(&mut self, items: &mut Vec<u8>)
        ensures
            final(items)@ == old(self)@.peek_shuffle(old(items)@),
            final(items)@.to_multiset() == old(items)@.to_multiset(),
            final(items)@.len() == old(items)@.len(),
            final(self)@ == old(self)@.after_shuffle(old(items)@),
    {
        let end = draw_shuffle(&self.seed, &self.entropy, self.pos, items);
        self.pos = end;
    }
}

/// A shuffled list holds what the list held: as many items, and each of
/// them an item of the list.
pub proof fn lemma_shuffle_keeps_items(prng: PrngModel, items: Seq<u8>)
    ensures
        prng.peek_shuffle(items).to_multiset() == items.to_multiset(),
        prng.peek_shuffle(items).len() == items.len(),
        forall|k: int|
            0 <= k < items.len() ==> items.contains(#[trigger] prng.peek_shuffle(items)[k]),
{
    let order = prng.peek_shuffle(items);
    order.to_multiset_ensures();
    items.to_multiset_ensures();
    assert forall|k: int| 0 <= k < items.len() implies items.contains(#[trigger] order[k]) by {
        assert(order.contains(order[k]));
        assert(order.to_multiset().count(order[k]) > 0);
    }
}

/// The eight bytes of a number, most significant first.
pub open spec fn be_bytes(x: u64) -> Seq<u8> {
    Seq::new(8, |i: int| ((x >> ((56 - 8 * i) as u64)) & 0xff) as u8)
}

/// Appends the eight bytes of a number, the highest first.
fn push_be_bytes(out: &mut Vec<u8>, x: u64)
    ensures
        final(out)@ == old(out)@ + be_bytes(x),
{
    let ghost start = out@;
    let mut i: u64 = 0;
    while i < 8
        invariant
            i <= 8,
            out@.len() == start.len() + i,
            forall|k: int| 0 <= k < start.len() ==> out@[k] == start[k],
            forall|k: int| 0 <= k < i ==> out@[start.len() + k] == be_bytes(x)[k],
        decreases 8 - i,
    {
        let shift: u64 = 56 - 8 * i;
        let byte: u8 = ((x >> shift) & 0xff) as u8;
        out.push(byte);
        i += 1;
    }
    assert(out@ =~= start + be_bytes(x));
}

/// The bytes that a message adds to the seed: block height and block time,
/// each as eight bytes with the most significant first, then the caller, then
/// the entropy that the caller sent.
pub open spec fn extended_entropy(
    block_height: u64,
    block_time: u64,
    sender: Seq<u8>,
    entropy: Seq<u8>,
) -> Seq<u8> {
    be_bytes(block_height) + be_bytes(block_time) + sender + entropy
}

/// Joins the inputs of a message into the entropy of its generator.
pub fn extend_entropy(block_height: u64, block_time: u64, sender: &Vec<u8>, entropy: &Vec<u8>) -> (out:
    Vec<u8>)
    ensures
        out@ == extended_entropy(block_height, block_time, sender@, entropy@),
{
    let mut out: Vec<u8> = Vec::new();
    push_be_bytes(&mut out, block_height);
    push_be_bytes(&mut out, block_time);
    let ghost head = out@;
    let mut i: usize = 0;
    while i < sender.len()
        invariant
            i <= sender.len(),
            out@ =~= head + sender@.subrange(0, i as int),
        decreases sender.len() - i,
    {
        out.push(sender[i]);
        i += 1;
    }
    assert(sender@.subrange(0, sender@.len() as int) =~= sender@);
    let ghost mid = out@;
    let mut j: usize = 0;
    while j < entropy.len()
        invariant
            j <= entropy.len(),
            out@ =~= mid + entropy@.subrange(0, j as int),
        decreases entropy.len() - j,
    {
        out.push(entropy[j]);
        j += 1;
    }
    assert(entropy@.subrange(0, entropy@.len() as int) =~= entropy@);
    assert(out@ =~= extended_entropy(block_height, block_time, sender@, entropy@));
    out
}

/// The SHA-256 digest of a byte string.
pub fn sha_256(data: &Vec<u8>) -> (out: [u8; 32])
    ensures
        out@ == sha256(data@),
{
    digest(data)
}

/// The seed that a contract starts with: the digest of the base64 text of
/// the entropy given at its creation.
pub fn initial_seed(entropy: &Vec<u8>) -> (seed: [u8; 32])
    requires
        entropy@.len() <= usize::MAX / 2,
    ensures
        seed@ == sha256(base64_text(entropy@)),
{
    let text = encode_base64(entropy);
    digest(&text)
}

} // verus!
