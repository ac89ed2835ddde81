//! A variable-length secret key.
//!
//! The key's bytes are held in a `secrecy::SecretVec`, which overwrites them
//! with zeros when the key is dropped, on every path that drops it.

use crate::error::Error;
use crate::word::Word;
use rand::RngCore;
use secrecy::ExposeSecret;
use secrecy::SecretVec;
use vstd::prelude::*;

verus! {

/// Key bytes held in a `secrecy::SecretVec`, which overwrites them with
/// zeros when dropped. (`secrecy::Secret` itself cannot be declared to the
/// verifier: its type parameter is bound by the outside trait `Zeroize`.)
#[verifier::external_body]
pub struct SecretBytes {
    inner: SecretVec<u8>,
}

/// The generator of `rand::thread_rng`, carried through opaquely.
#[verifier::external_type_specification]
#[verifier::external_body]
pub struct ExThreadRng(rand::rngs::ThreadRng);

/// The bytes that a secret holds.
pub uninterp spec fn secret_bytes(s: SecretBytes) -> Seq<u8>;

/// Relies on `secrecy::Secret::new`: the secret takes the vector as it is.
#[verifier::external_body]
fn seal(bytes: Vec<u8>) -> (r: SecretBytes)
    ensures
        secret_bytes(r) == bytes@,
{
    SecretBytes { inner: secrecy::Secret::new(bytes) }
}

/// Relies on `secrecy::ExposeSecret::expose_secret`: a reference to the
/// vector that the secret holds.
#[verifier::external_body]
fn expose(s: &SecretBytes) -> (r: &Vec<u8>)
    ensures
        r@ == secret_bytes(*s),
{
    s.inner.expose_secret()
}

/// Relies on `rand::thread_rng`: the thread-local generator, seeded from the
/// operating system.
pub assume_specification[ rand::thread_rng ]() -> rand::rngs::ThreadRng;

/// Relies on `rand::RngCore::fill_bytes` of `ThreadRng`: it overwrites the
/// bytes of `dest` in place, so the length is kept.
#[verifier::external_body]
fn fill_bytes(rng: &mut rand::rngs::ThreadRng, dest: &mut Vec<u8>)
    ensures
        final(dest)@.len() == old(dest)@.len(),
{
    rng.fill_bytes(dest.as_mut_slice())
}

/// The longest key accepted, in bytes.
pub const MAX_KEY_LENGTH: usize = 256;

/// The number of words that a key of `len` bytes fills, `u` bytes to a word:
/// `ceil(len / u)`, and one word for the empty key.
pub open spec fn key_word_count(len: nat, u: nat) -> nat {
    if len == 0 {
        1
    } else {
        ((len - 1) as nat) / u + 1
    }
}

/// The key words after the bytes from `k` to the end have been taken in,
/// from the last byte down to the `k`-th, starting from all zeros:
/// byte `i` goes into word `i / u` as `L[i / u] = (L[i / u] <<< 8) + K[i]`.
pub open spec fn key_words_from<W: Word>(key: Seq<u8>, k: nat) -> Seq<W>
    decreases key.len() - k,
{
    if k >= key.len() {
        Seq::new(key_word_count(key.len(), W::BYTES as nat), |_i: int| W::spec_zero())
    } else {
        let ws = key_words_from::<W>(key, k + 1);
        let j = k / (W::BYTES as nat);
        ws.update(j as int, W::spec_add(W::spec_rotl_bits(ws[j as int], 8), W::spec_from_byte(key[k as int])))
    }
}

/// The words of a secret key, as the key expansion reads them.
pub open spec fn key_words<W: Word>(key: Seq<u8>) -> Seq<W> {
    key_words_from::<W>(key, 0)
}

/// A secret key of at most 256 bytes, wiped from memory when dropped.
pub struct SecretKey(SecretBytes);

impl View for SecretKey {
    type V = Seq<u8>;

    closed spec fn view(&self) -> Seq<u8> {
        secret_bytes(self.0)
    }
}

impl SecretKey {
    #[verifier::type_invariant]
    closed spec fn inv(&self) -> bool {
        secret_bytes(self.0).len() <= MAX_KEY_LENGTH
    }

    /// Creates a secret key from the given bytes; fails when there are more
    /// than 256 of them.
    pub fn new(bytes: Vec<u8>) -> (r: Result<Self, Error>)
        ensures
            bytes@.len() > MAX_KEY_LENGTH ==> r == Err::<Self, Error>(
                Error::InvalidSecretKeyLength(bytes@.len() as usize),
            ),
            bytes@.len() <= MAX_KEY_LENGTH ==> r is Ok && r->Ok_0@ == bytes@,
    {
        if bytes.len() > MAX_KEY_LENGTH {
            Err(Error::InvalidSecretKeyLength(bytes.len()))
        } else {
            Ok(SecretKey(seal(bytes)))
        }
    }

    /// Generates a random secret key of the given length.
    pub fn random(len: usize) -> (r: Self)
        requires
            len <= MAX_KEY_LENGTH,
        ensures
            r@.len() == len,
    {
        let mut data: Vec<u8> = Vec::new();
        let mut k: usize = 0;
        while k < len
            invariant
                k <= len,
                data@.len() == k,
            decreases len - k,
        {
            data.push(0u8);
            k += 1;
        }
        let mut rng = rand::thread_rng();
        fill_bytes(&mut rng, &mut data);
        SecretKey(seal(data))
    }

    /// Length of the secret key in bytes.
    pub fn len(&self) -> (r: usize)
        ensures
            r == self@.len(),
            r <= MAX_KEY_LENGTH,
    {
        proof {
            use_type_invariant(self);
        }
        self.secret().len()
    }

    /// The bytes of the key.
    fn secret(&self) -> (r: &Vec<u8>)
        ensures
            r@ == self@,
    {
        expose(&self.0)
    }

    /// Packs the key's bytes into words, little-endian: `ceil(b / u)` words
    /// for `b` bytes and `u` bytes to a word, and a single zero word for the
    /// empty key.
    pub fn to_words<W: Word>(&self) -> (r: Vec<W>)
        ensures
            r@ == key_words::<W>(self@),
            r@.len() == key_word_count(self@.len(), W::BYTES as nat),
    {
        proof {
            use_type_invariant(self);
            W::lemma_sizes();
        }
        let bytes = self.secret();
        let n = bytes.len();
        let count: usize = if n == 0 {
            1
        } else {
            (n - 1) / W::BYTES + 1
        };
        let mut words: Vec<W> = Vec::new();
        let mut k: usize = 0;
        while k < count
            invariant
                k <= count,
                words@ == Seq::new(k as nat, |_i: int| W::spec_zero()),
            decreases count - k,
        {
            words.push(W::zero());
            k += 1;
            proof {
                assert(words@ =~= Seq::new(k as nat, |_i: int| W::spec_zero()));
            }
        }
        let mut i: usize = n;
        proof {
            assert(words@ =~= key_words_from::<W>(bytes@, n as nat));
        }
        while i > 0
            invariant
                i <= n,
                n == bytes@.len(),
                n <= MAX_KEY_LENGTH,
                2 <= W::BYTES <= 8,
                W::BITS == 8 * W::BYTES,
                count == key_word_count(n as nat, W::BYTES as nat),
                words@ == key_words_from::<W>(bytes@, i as nat),
            decreases i,
        {
            i -= 1;
            let j = i / W::BYTES;
            proof {
                vstd::arithmetic::div_mod::lemma_div_is_ordered(i as int, (n - 1) as int, W::BYTES as int);
                lemma_key_words_len::<W>(bytes@, (i + 1) as nat);
            }
            let w = W::from_byte(bytes[i]);
            let v = words[j].rotate_left(8).wrapping_add(&w);
            words.set(j, v);
        }
        proof {
            lemma_key_words_len::<W>(bytes@, 0);
        }
        words
    }
}

/// However many bytes have been taken in, there are as many words as the
/// key fills.
pub proof fn lemma_key_words_len<W: Word>(key: Seq<u8>, k: nat)
    ensures
        key_words_from::<W>(key, k).len() == key_word_count(key.len(), W::BYTES as nat),
    decreases key.len() - k,
{
    W::lemma_sizes();
    if k < key.len() {
        lemma_key_words_len::<W>(key, k + 1);
        vstd::arithmetic::div_mod::lemma_div_is_ordered(k as int, key.len() - 1, W::BYTES as int);
    }
}

} // verus!
