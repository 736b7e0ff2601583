//! Key material backing the token's signature chain. A key pair is drawn
//! either from the process's secure generator (production) or from a
//! caller-supplied seeded source, which is fully deterministic given the
//! seed, for reproducible fixtures. Signing is a deterministic keyed
//! digest over the words to sign: equal keys and equal words always yield
//! byte-identical signatures.
use vstd::prelude::*;
use vstd::wrapping::u64_specs;

verus! {

/// The odd increment of the mixing generator.
pub const GOLDEN: u64 = 0x9E3779B97F4A7C15;

/// First multiplier of the finalizer.
pub const MIX_A: u64 = 0xBF58476D1CE4E5B9;

/// Second multiplier of the finalizer.
pub const MIX_B: u64 = 0x94D049BB133111EB;

/// The 64-bit finalizer: a bijective mixing of its input.
pub open spec fn mix64(z: u64) -> u64 {
    let a = u64_specs::wrapping_mul(z ^ (z >> 30), MIX_A);
    let b = u64_specs::wrapping_mul(a ^ (a >> 27), MIX_B);
    b ^ (b >> 31)
}

/// Computes the finalizer.
pub fn mix64_exec(z: u64) -> (r: u64)
    ensures
        r == mix64(z),
{
    let a = (z ^ (z >> 30)).wrapping_mul(MIX_A);
    let b = (a ^ (a >> 27)).wrapping_mul(MIX_B);
    b ^ (b >> 31)
}

/// The generator state after one draw.
pub open spec fn next_state(s: u64) -> u64 {
    u64_specs::wrapping_add(s, GOLDEN)
}

/// The word one draw yields from state `s`.
pub open spec fn draw(s: u64) -> u64 {
    mix64(next_state(s))
}

/// A deterministic pseudorandom source: the stream of draws is a function
/// of the seed alone, so fixtures built from equal seeds are identical.
pub struct RandomSource {
    pub state: u64,
}

impl RandomSource {
    /// The source whose draws are determined by `seed`.
    pub fn from_seed(seed: u64) -> (r: RandomSource)
        ensures
            r.state == seed,
    {
        RandomSource { state: seed }
    }

    /// Draws the next word.
    pub fn next_u64(&mut self) -> (r: u64)
        ensures
            final(self).state == next_state(old(self).state),
            r == draw(old(self).state),
    {
        self.state = self.state.wrapping_add(GOLDEN);
        mix64_exec(self.state)
    }
}

/// Relies on rand::random: a word from the thread-local secure generator.
/// Nothing is promised of the value.
#[verifier::external_body]
fn secure_u64() -> u64 {
    rand::random::<u64>()
}

/// Secret signing key material: four words.
#[derive(Clone, Copy, PartialEq, Eq, Structural, Debug)]
pub struct PrivateKey {
    pub w0: u64,
    pub w1: u64,
    pub w2: u64,
    pub w3: u64,
}

/// Public key material: four words, each derived from the matching private
/// word by the finalizer.
#[derive(Clone, Copy, PartialEq, Eq, Structural, Debug)]
pub struct PublicKey {
    pub w0: u64,
    pub w1: u64,
    pub w2: u64,
    pub w3: u64,
}

/// The public key a private key determines.
pub open spec fn public_of(p: PrivateKey) -> PublicKey {
    PublicKey {
        w0: mix64(p.w0 ^ 1),
        w1: mix64(p.w1 ^ 2),
        w2: mix64(p.w2 ^ 3),
        w3: mix64(p.w3 ^ 4),
    }
}

/// The private key four consecutive draws from state `s` yield.
pub open spec fn private_from_state(s: u64) -> PrivateKey {
    PrivateKey {
        w0: draw(s),
        w1: draw(next_state(s)),
        w2: draw(next_state(next_state(s))),
        w3: draw(next_state(next_state(next_state(s)))),
    }
}

/// Asymmetric key material: signs the authority block and anchors the
/// block signature chain.
#[derive(Clone, Copy, PartialEq, Eq, Structural, Debug)]
pub struct KeyPair {
    pub private: PrivateKey,
    pub public: PublicKey,
}

/// Whether a key pair's halves belong together.
pub open spec fn keypair_wf(kp: KeyPair) -> bool {
    kp.public == public_of(kp.private)
}

impl KeyPair {
    /// A key pair from the secure default source. Only the tie between the
    /// two halves is promised; the words are unpredictable.
    pub fn new() -> (kp: KeyPair)
        ensures
            keypair_wf(kp),
    {
        let w0 = secure_u64();
        let w1 = secure_u64();
        let w2 = secure_u64();
        let w3 = secure_u64();
        let private = PrivateKey { w0, w1, w2, w3 };
        KeyPair {
            private,
            public: PublicKey {
                w0: mix64_exec(private.w0 ^ 1),
                w1: mix64_exec(private.w1 ^ 2),
                w2: mix64_exec(private.w2 ^ 3),
                w3: mix64_exec(private.w3 ^ 4),
            },
        }
    }

    /// A key pair drawn from a caller-supplied source: a function of the
    /// source's state, so identically seeded sources yield identical pairs.
    pub fn new_with_rng(rng: &mut RandomSource) -> (kp: KeyPair)
        ensures
            kp.private == private_from_state(old(rng).state),
            keypair_wf(kp),
            final(rng).state == next_state(
                next_state(next_state(next_state(old(rng).state))),
            ),
    {
        let w0 = rng.next_u64();
        let w1 = rng.next_u64();
        let w2 = rng.next_u64();
        let w3 = rng.next_u64();
        let private = PrivateKey { w0, w1, w2, w3 };
        KeyPair {
            private,
            public: PublicKey {
                w0: mix64_exec(private.w0 ^ 1),
                w1: mix64_exec(private.w1 ^ 2),
                w2: mix64_exec(private.w2 ^ 3),
                w3: mix64_exec(private.w3 ^ 4),
            },
        }
    }

    /// Signs `message`, producing the 32-byte signature determined by the
    /// private key and the words signed.
    pub fn sign(&self, message: &Vec<u64>) -> (sig: Vec<u8>)
        ensures
            sig@ == signature_bytes(self.private, message@),
    {
        let h0 = absorb_exec(absorb_exec(absorb_exec(absorb_exec(GOLDEN, self.private.w0),
            self.private.w1), self.private.w2), self.private.w3);
        let ghost key_words = seq![self.private.w0, self.private.w1, self.private.w2, self.private.w3];
        assert(h0 == absorb_all(GOLDEN, key_words, 0)) by {
            reveal_with_fuel(absorb_all, 5);
        }
        let mut h = h0;
        let mut i: usize = 0;
        while i < message.len()
            invariant
                i <= message.len(),
                absorb_all(h0, message@, 0) == absorb_all(h, message@, i as int),
            decreases message.len() - i,
        {
            h = absorb_exec(h, message[i]);
            i += 1;
        }
        let mut sig: Vec<u8> = Vec::new();
        push_le_bytes(&mut sig, mix64_exec(h ^ 1));
        push_le_bytes(&mut sig, mix64_exec(h ^ 2));
        push_le_bytes(&mut sig, mix64_exec(h ^ 3));
        push_le_bytes(&mut sig, mix64_exec(h ^ 4));
        assert(sig@ =~= signature_bytes(self.private, message@));
        sig
    }
}

/// The digest state after absorbing one word.
pub open spec fn absorb(state: u64, w: u64) -> u64 {
    mix64(u64_specs::wrapping_add(state, w))
}

/// Absorbs one word.
fn absorb_exec(state: u64, w: u64) -> (r: u64)
    ensures
        r == absorb(state, w),
{
    mix64_exec(state.wrapping_add(w))
}

/// The digest state after absorbing the words from position `i` on.
pub open spec fn absorb_all(state: u64, ws: Seq<u64>, i: int) -> u64
    decreases ws.len() - i,
{
    if i < 0 || i >= ws.len() {
        state
    } else {
        absorb_all(absorb(state, ws[i]), ws, i + 1)
    }
}

/// A word's eight bytes, least significant first.
pub open spec fn le_bytes(x: u64) -> Seq<u8> {
    seq![
        (x & 0xff) as u8,
        ((x >> 8) & 0xff) as u8,
        ((x >> 16) & 0xff) as u8,
        ((x >> 24) & 0xff) as u8,
        ((x >> 32) & 0xff) as u8,
        ((x >> 40) & 0xff) as u8,
        ((x >> 48) & 0xff) as u8,
        ((x >> 56) & 0xff) as u8,
    ]
}

/// Appends a word's bytes, least significant first.
fn push_le_bytes(out: &mut Vec<u8>, x: u64)
    ensures
        final(out)@ == old(out)@ + le_bytes(x),
{
    out.push((x & 0xff) as u8);
    out.push(((x >> 8) & 0xff) as u8);
    out.push(((x >> 16) & 0xff) as u8);
    out.push(((x >> 24) & 0xff) as u8);
    out.push(((x >> 32) & 0xff) as u8);
    out.push(((x >> 40) & 0xff) as u8);
    out.push(((x >> 48) & 0xff) as u8);
    out.push(((x >> 56) & 0xff) as u8);
    assert(out@ =~= old(out)@ + le_bytes(x));
}

/// The signature the private key and the signed words determine: the key
/// words are absorbed, then the message words, and four finalized words
/// are laid out as bytes.
pub open spec fn signature_bytes(p: PrivateKey, ws: Seq<u64>) -> Seq<u8> {
    let h = absorb_all(absorb_all(GOLDEN, seq![p.w0, p.w1, p.w2, p.w3], 0), ws, 0);
    le_bytes(mix64(h ^ 1)) + le_bytes(mix64(h ^ 2)) + le_bytes(mix64(h ^ 3)) + le_bytes(
        mix64(h ^ 4),
    )
}

} // verus!
