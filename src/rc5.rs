//! An RC5 instance: a round-key table and its number of rounds, with
//! encryption and decryption of byte buffers.

use crate::block::{decrypt, encrypt, lemma_decrypt_encrypt, Block};
use crate::error::Error;
use crate::expanded_key_table::{expand_key, ExpandedKeyTable, MAX_NUMBER_OF_ROUNDS};
use crate::secret_key::{SecretKey, MAX_KEY_LENGTH};
use crate::word::Word;
use vstd::prelude::*;

verus! {

/// An RC5 encryption algorithm instance.
pub struct RC5<W> {
    /// Expanded key vector of random binary words determined by the secret key.
    pub(crate) expanded_key_table: ExpandedKeyTable<W>,
    /// Number of rounds.
    pub(crate) number_of_rounds: usize,
}

impl<W: Word> RC5<W> {
    /// The round-key table.
    pub closed spec fn table(&self) -> Seq<W> {
        self.expanded_key_table@
    }

    /// The number of rounds.
    pub closed spec fn rounds(&self) -> nat {
        self.number_of_rounds as nat
    }

    /// At most 256 rounds, and a table of `2 * (rounds + 1)` words.
    pub open spec fn wf(&self) -> bool {
        &&& self.rounds() <= MAX_NUMBER_OF_ROUNDS
        &&& self.table().len() == 2 * (self.rounds() + 1)
    }

    /// Creates a new instance for a secret key with the nominal number of
    /// rounds of the word size.
    pub fn new(secret_key: Vec<u8>) -> (r: Result<Self, Error>)
        ensures
            secret_key@.len() > MAX_KEY_LENGTH ==> r == Err::<Self, Error>(
                Error::InvalidSecretKeyLength(secret_key@.len() as usize),
            ),
            W::ROUNDS > MAX_NUMBER_OF_ROUNDS && secret_key@.len() <= MAX_KEY_LENGTH ==> r == Err::<
                Self,
                Error,
            >(Error::InvalidNumberOfRounds(W::ROUNDS)),
            W::ROUNDS <= MAX_NUMBER_OF_ROUNDS && secret_key@.len() <= MAX_KEY_LENGTH ==> {
                &&& r is Ok
                &&& r->Ok_0.wf()
                &&& r->Ok_0.rounds() == W::ROUNDS
                &&& r->Ok_0.table() == expand_key::<W>(secret_key@, W::ROUNDS as nat)
            },
    {
        Self::new_with_rounds(secret_key, W::ROUNDS)
    }

    /// Creates a new instance for a secret key and a number of rounds.
    /// Fails when the key is longer than 256 bytes, and otherwise when there
    /// are more than 256 rounds.
    pub fn new_with_rounds(secret_key: Vec<u8>, number_of_rounds: usize) -> (r: Result<
        Self,
        Error,
    >)
        ensures
            secret_key@.len() > MAX_KEY_LENGTH ==> r == Err::<Self, Error>(
                Error::InvalidSecretKeyLength(secret_key@.len() as usize),
            ),
            number_of_rounds > MAX_NUMBER_OF_ROUNDS && secret_key@.len() <= MAX_KEY_LENGTH ==> r
                == Err::<Self, Error>(Error::InvalidNumberOfRounds(number_of_rounds)),
            number_of_rounds <= MAX_NUMBER_OF_ROUNDS && secret_key@.len() <= MAX_KEY_LENGTH ==> {
                &&& r is Ok
                &&& r->Ok_0.wf()
                &&& r->Ok_0.rounds() == number_of_rounds
                &&& r->Ok_0.table() == expand_key::<W>(secret_key@, number_of_rounds as nat)
            },
    {
        let ghost key_bytes = secret_key@;
        let secret_key = match SecretKey::new(secret_key) {
            Ok(key) => key,
            Err(e) => return Err(e),
        };
        let expanded_key_table = match ExpandedKeyTable::new(&secret_key, number_of_rounds) {
            Ok(table) => table,
            Err(e) => return Err(e),
        };
        proof {
            crate::expanded_key_table::lemma_expand_key_len::<W>(key_bytes, number_of_rounds as nat);
        }
        Ok(RC5 { expanded_key_table, number_of_rounds })
        // The secret key's bytes are wiped from memory here, when
        // `secret_key` is dropped.
    }

    /// The words of the round-key table.
    pub(crate) fn key_table(&self) -> (r: &[W])
        ensures
            r@ == self.table(),
    {
        self.expanded_key_table.words()
    }

    /// The number of rounds.
    pub fn number_of_rounds(&self) -> (r: usize)
        ensures
            r == self.rounds(),
    {
        self.number_of_rounds
    }
}


/// The words read from a buffer, `BYTES` bytes to a word, little-endian.
pub open spec fn words_of<W: Word>(bytes: Seq<u8>) -> Seq<W> {
    let u = W::BYTES as int;
    Seq::new(
        (bytes.len() / (u as nat)) as nat,
        |i: int| W::spec_from_le_bytes(bytes.subrange(i * u, i * u + u)),
    )
}

/// The blocks of a buffer: its words, two to a block, in order.
pub open spec fn blocks_of<W: Word>(bytes: Seq<u8>) -> Seq<(W, W)> {
    let ws = words_of::<W>(bytes);
    Seq::new(ws.len() / 2, |k: int| (ws[2 * k], ws[2 * k + 1]))
}

/// The words of a sequence of blocks, in order.
pub open spec fn words_of_blocks<W>(bs: Seq<(W, W)>) -> Seq<W> {
    Seq::new(
        2 * bs.len(),
        |i: int|
            if i % 2 == 0 {
                bs[i / 2].0
            } else {
                bs[i / 2].1
            },
    )
}

/// The bytes of a sequence of words, each little-endian.
pub open spec fn bytes_of_words<W: Word>(ws: Seq<W>) -> Seq<u8> {
    let u = W::BYTES as int;
    Seq::new(ws.len() * (u as nat), |n: int| W::spec_to_le_bytes(ws[n / u])[n % u])
}

/// A buffer encrypted block by block, each block on its own.
pub open spec fn encode_bytes<W: Word>(bytes: Seq<u8>, s: Seq<W>, r: nat) -> Seq<u8> {
    bytes_of_words::<W>(
        words_of_blocks::<W>(blocks_of::<W>(bytes).map_values(|x: (W, W)| encrypt::<W>(x, s, r))),
    )
}

/// A buffer decrypted block by block, each block on its own.
pub open spec fn decode_bytes<W: Word>(bytes: Seq<u8>, s: Seq<W>, r: nat) -> Seq<u8> {
    bytes_of_words::<W>(
        words_of_blocks::<W>(blocks_of::<W>(bytes).map_values(|x: (W, W)| decrypt::<W>(x, s, r))),
    )
}

/// The views of a sequence of blocks.
pub open spec fn block_views<W>(bs: Seq<Block<W>>) -> Seq<(W, W)> {
    bs.map_values(|b: Block<W>| b@)
}

/// Byte `n` of a buffer cut into chunks of `u` bytes lies in chunk `i` at
/// `n - i * u`, where `i * u <= n < (i + 1) * u`.
proof fn lemma_chunk_index(n: int, i: int, u: int)
    requires
        u > 0,
        i * u <= n < i * u + u,
    ensures
        n / u == i,
        n % u == n - i * u,
{
    vstd::arithmetic::div_mod::lemma_fundamental_div_mod_converse(n, u, i, n - i * u);
}

/// In a buffer whose length is a multiple of `u`, a chunk that starts
/// before the end ends within it.
proof fn lemma_next_chunk(k: int, n: int, u: int)
    requires
        u > 0,
        k >= 0,
        n % u == 0,
        k * u < n,
    ensures
        k * u + u <= n,
{
    vstd::arithmetic::div_mod::lemma_fundamental_div_mod(n, u);
    let m = n / u;
    vstd::arithmetic::mul::lemma_mul_is_commutative(m, u);
    assert(n == m * u);
    vstd::arithmetic::mul::lemma_mul_strict_inequality_converse(k, m, u);
    vstd::arithmetic::mul::lemma_mul_inequality(k + 1, m, u);
    vstd::arithmetic::mul::lemma_mul_is_distributive_add_other_way(u, k, 1);
}

/// A buffer of `n` bytes, `n` a multiple of `2u`, holds an even number of
/// `u`-byte words.
proof fn lemma_even_words(n: int, u: int)
    requires
        u > 0,
        n >= 0,
        n % (2 * u) == 0,
    ensures
        n % u == 0,
        (n / u) % 2 == 0,
        (n / u) / 2 == n / (2 * u),
{
    vstd::arithmetic::div_mod::lemma_fundamental_div_mod(n, 2 * u);
    let q = n / (2 * u);
    assert(n == (2 * q) * u && n == u * (2 * q)) by (nonlinear_arith)
        requires
            n == (2 * u) * q,
    ;
    vstd::arithmetic::div_mod::lemma_mod_multiples_basic(2 * q, u);
    vstd::arithmetic::div_mod::lemma_div_multiples_vanish(2 * q, u);
}

/// Reading back the bytes of a sequence of words gives the words.
proof fn lemma_words_of_bytes<W: Word>(ws: Seq<W>)
    ensures
        words_of::<W>(bytes_of_words::<W>(ws)) == ws,
{
    W::lemma_sizes();
    W::lemma_le_bytes();
    let u = W::BYTES as int;
    let len = ws.len() as int;
    let b = bytes_of_words::<W>(ws);
    vstd::arithmetic::mul::lemma_mul_is_commutative(len, u);
    vstd::arithmetic::div_mod::lemma_div_multiples_vanish(len, u);
    assert forall|i: int| 0 <= i < len implies b.subrange(i * u, i * u + u) == W::spec_to_le_bytes(
        ws[i],
    ) by {
        vstd::arithmetic::mul::lemma_mul_inequality(i + 1, len, u);
        vstd::arithmetic::mul::lemma_mul_is_distributive_add_other_way(u, i, 1);
        vstd::arithmetic::mul::lemma_mul_nonnegative(i, u);
        assert forall|m: int| 0 <= m < u implies b.subrange(i * u, i * u + u)[m]
            == W::spec_to_le_bytes(ws[i])[m] by {
            lemma_chunk_index(i * u + m, i, u);
        }
        assert(b.subrange(i * u, i * u + u) =~= W::spec_to_le_bytes(ws[i]));
    }
    assert(words_of::<W>(b) =~= ws);
}

/// Writing out the words read from a buffer of whole words gives the
/// buffer back.
proof fn lemma_bytes_of_words<W: Word>(bytes: Seq<u8>)
    requires
        bytes.len() % (W::BYTES as nat) == 0,
    ensures
        bytes_of_words::<W>(words_of::<W>(bytes)) == bytes,
{
    W::lemma_sizes();
    W::lemma_le_bytes();
    let u = W::BYTES as int;
    let len = bytes.len() as int;
    let ws = words_of::<W>(bytes);
    vstd::arithmetic::div_mod::lemma_fundamental_div_mod(len, u);
    vstd::arithmetic::mul::lemma_mul_is_commutative(len / u, u);
    assert forall|n: int| 0 <= n < len implies bytes_of_words::<W>(ws)[n] == bytes[n] by {
        let i = n / u;
        vstd::arithmetic::div_mod::lemma_fundamental_div_mod(n, u);
        vstd::arithmetic::mul::lemma_mul_is_commutative(i, u);
        vstd::arithmetic::div_mod::lemma_mod_bound(n, u);
        vstd::arithmetic::div_mod::lemma_div_pos_is_pos(n, u);
        vstd::arithmetic::mul::lemma_mul_strict_inequality_converse(i, len / u, u);
        lemma_next_chunk(i, len, u);
        let chunk = bytes.subrange(i * u, i * u + u);
        assert(W::spec_to_le_bytes(W::spec_from_le_bytes(chunk)) == chunk);
    }
    assert(bytes_of_words::<W>(ws) =~= bytes);
}

/// The words of a buffer of whole blocks, taken two to a block and put back
/// in order, are the words of the buffer.
proof fn lemma_words_of_blocks<W: Word>(bytes: Seq<u8>)
    requires
        bytes.len() % (2 * W::BYTES) as nat == 0,
    ensures
        words_of_blocks::<W>(blocks_of::<W>(bytes)) == words_of::<W>(bytes),
{
    W::lemma_sizes();
    lemma_even_words(bytes.len() as int, W::BYTES as int);
    assert(words_of_blocks::<W>(blocks_of::<W>(bytes)) =~= words_of::<W>(bytes));
}

/// The blocks read back from the bytes of a sequence of blocks are those
/// blocks.
proof fn lemma_blocks_of_bytes<W: Word>(bs: Seq<(W, W)>)
    ensures
        blocks_of::<W>(bytes_of_words::<W>(words_of_blocks::<W>(bs))) == bs,
{
    lemma_words_of_bytes::<W>(words_of_blocks::<W>(bs));
    assert(blocks_of::<W>(bytes_of_words::<W>(words_of_blocks::<W>(bs))) =~= bs);
}

/// Decoding an encoded buffer gives the buffer back, for every word size,
/// table, number of rounds and buffer of whole blocks; encoding keeps the
/// length, so the encoded buffer is again one of whole blocks.
pub proof fn lemma_decode_encode_bytes<W: Word>(bytes: Seq<u8>, s: Seq<W>, r: nat)
    requires
        bytes.len() % (2 * W::BYTES) as nat == 0,
    ensures
        encode_bytes::<W>(bytes, s, r).len() == bytes.len(),
        decode_bytes::<W>(encode_bytes::<W>(bytes, s, r), s, r) == bytes,
{
    let bs = blocks_of::<W>(bytes);
    let e = bs.map_values(|x: (W, W)| encrypt::<W>(x, s, r));
    lemma_blocks_of_bytes::<W>(e);
    assert(e.map_values(|x: (W, W)| decrypt::<W>(x, s, r)) =~= bs) by {
        assert forall|k: int| 0 <= k < bs.len() implies e.map_values(
            |x: (W, W)| decrypt::<W>(x, s, r),
        )[k] == bs[k] by {
            lemma_decrypt_encrypt::<W>(bs[k], s, r);
        }
    }
    W::lemma_sizes();
    lemma_even_words(bytes.len() as int, W::BYTES as int);
    lemma_words_of_blocks::<W>(bytes);
    lemma_bytes_of_words::<W>(bytes);
    assert(words_of_blocks::<W>(e).len() == words_of_blocks::<W>(bs).len());
}

/// Decoding with a cipher what it encoded gives the plaintext back, for
/// every word size, key, number of rounds and plaintext of whole blocks.
pub proof fn lemma_decode_encode<W: Word>(ctx: RC5<W>, plaintext: Seq<u8>)
    requires
        ctx.wf(),
        plaintext.len() % (2 * W::BYTES) as nat == 0,
    ensures
        encode_bytes::<W>(plaintext, ctx.table(), ctx.rounds()).len() == plaintext.len(),
        decode_bytes::<W>(
            encode_bytes::<W>(plaintext, ctx.table(), ctx.rounds()),
            ctx.table(),
            ctx.rounds(),
        ) == plaintext,
{
    lemma_decode_encode_bytes::<W>(plaintext, ctx.table(), ctx.rounds());
}

/// Two ciphers built from the same key and number of rounds have the same
/// round-key table, and encrypt every plaintext to the same ciphertext.
pub proof fn lemma_deterministic<W: Word>(
    c1: RC5<W>,
    c2: RC5<W>,
    key: Seq<u8>,
    rounds: nat,
    plaintext: Seq<u8>,
)
    requires
        c1.rounds() == rounds,
        c1.table() == expand_key::<W>(key, rounds),
        c2.rounds() == rounds,
        c2.table() == expand_key::<W>(key, rounds),
    ensures
        c1.table() == c2.table(),
        encode_bytes::<W>(plaintext, c1.table(), c1.rounds()) == encode_bytes::<W>(
            plaintext,
            c2.table(),
            c2.rounds(),
        ),
{
}

impl<W: Word> RC5<W> {
    /// Encrypts a plaintext, block by block; its length must be a multiple
    /// of the block size, `2 * BYTES`.
    pub fn encode(&self, plaintext: &[u8]) -> (r: Vec<u8>)
        requires
            self.wf(),
            plaintext@.len() % (2 * W::BYTES) as nat == 0,
        ensures
            r@ == encode_bytes::<W>(plaintext@, self.table(), self.rounds()),
    {
        let blocks = bytes_to_blocks::<W>(plaintext);
        let mut out: Vec<Block<W>> = Vec::new();
        let mut k: usize = 0;
        while k < blocks.len()
            invariant
                self.wf(),
                k <= blocks@.len(),
                out@.len() == k,
                block_views(blocks@) == blocks_of::<W>(plaintext@),
                forall|i: int|
                    0 <= i < k ==> #[trigger] out@[i]@ == encrypt::<W>(
                        blocks@[i]@,
                        self.table(),
                        self.rounds(),
                    ),
            decreases blocks@.len() - k,
        {
            let b = blocks[k].encode(self);
            out.push(b);
            k += 1;
        }
        proof {
            assert(block_views(out@) =~= blocks_of::<W>(plaintext@).map_values(
                |x: (W, W)| encrypt::<W>(x, self.table(), self.rounds()),
            ));
        }
        blocks_to_bytes(&out)
    }

    /// Decrypts a ciphertext, block by block; its length must be a multiple
    /// of the block size, `2 * BYTES`.
    pub fn decode(&self, ciphertext: &[u8]) -> (r: Vec<u8>)
        requires
            self.wf(),
            ciphertext@.len() % (2 * W::BYTES) as nat == 0,
        ensures
            r@ == decode_bytes::<W>(ciphertext@, self.table(), self.rounds()),
    {
        let blocks = bytes_to_blocks::<W>(ciphertext);
        let mut out: Vec<Block<W>> = Vec::new();
        let mut k: usize = 0;
        while k < blocks.len()
            invariant
                self.wf(),
                k <= blocks@.len(),
                out@.len() == k,
                block_views(blocks@) == blocks_of::<W>(ciphertext@),
                forall|i: int|
                    0 <= i < k ==> #[trigger] out@[i]@ == decrypt::<W>(
                        blocks@[i]@,
                        self.table(),
                        self.rounds(),
                    ),
            decreases blocks@.len() - k,
        {
            let b = blocks[k].decode(self);
            out.push(b);
            k += 1;
        }
        proof {
            assert(block_views(out@) =~= blocks_of::<W>(ciphertext@).map_values(
                |x: (W, W)| decrypt::<W>(x, self.table(), self.rounds()),
            ));
        }
        blocks_to_bytes(&out)
    }
}

/// Cuts a buffer into blocks of two words.
fn bytes_to_blocks<W: Word>(bytes: &[u8]) -> (r: Vec<Block<W>>)
    requires
        bytes@.len() % (2 * W::BYTES) as nat == 0,
    ensures
        block_views(r@) == blocks_of::<W>(bytes@),
{
    proof {
        W::lemma_sizes();
        lemma_even_words(bytes@.len() as int, W::BYTES as int);
    }
    let words = bytes_to_words::<W>(bytes);
    let n = words.len();
    let count = n / 2;
    let mut blocks: Vec<Block<W>> = Vec::new();
    let mut k: usize = 0;
    while k < count
        invariant
            words@ == words_of::<W>(bytes@),
            count == words@.len() / 2,
            words@.len() % 2 == 0,
            2 * count == words@.len(),
            n == words@.len(),
            k <= count,
            blocks@.len() == k,
            forall|i: int|
                0 <= i < k ==> #[trigger] blocks@[i]@ == (words@[2 * i], words@[2 * i + 1]),
        decreases count - k,
    {
        let pair = vstd::slice::slice_subrange(words.as_slice(), 2 * k, 2 * k + 2);
        blocks.push(Block::from_words(pair));
        k += 1;
    }
    proof {
        assert(block_views(blocks@) =~= blocks_of::<W>(bytes@));
    }
    blocks
}

/// Reads a buffer as little-endian words.
fn bytes_to_words<W: Word>(bytes: &[u8]) -> (r: Vec<W>)
    requires
        bytes@.len() % (W::BYTES as nat) == 0,
    ensures
        r@ == words_of::<W>(bytes@),
{
    proof {
        W::lemma_sizes();
    }
    let u = W::BYTES;
    let n = bytes.len();
    let mut words: Vec<W> = Vec::new();
    let mut pos: usize = 0;
    proof {
        assert(0 * (u as int) == 0);
    }
    while pos < n
        invariant
            u == W::BYTES,
            2 <= u <= 8,
            W::BYTES == W::spec_le_len(),
            n == bytes@.len(),
            n % u == 0,
            pos == words@.len() * u,
            pos <= n,
            forall|i: int|
                0 <= i < words@.len() ==> #[trigger] words@[i] == W::spec_from_le_bytes(
                    bytes@.subrange(i * u, i * u + u),
                ),
        decreases n - pos,
    {
        proof {
            lemma_next_chunk(words@.len() as int, n as int, u as int);
        }
        let chunk = vstd::slice::slice_subrange(bytes, pos, pos + u);
        let w = W::from_le_bytes(chunk);
        words.push(w);
        pos += u;
        proof {
            vstd::arithmetic::mul::lemma_mul_is_distributive_add_other_way(
                u as int,
                (words@.len() - 1) as int,
                1,
            );
        }
    }
    proof {
        vstd::arithmetic::div_mod::lemma_div_multiples_vanish(words@.len() as int, u as int);
        assert(words@ =~= words_of::<W>(bytes@));
    }
    words
}

/// The words of the blocks, in order.
fn blocks_to_words<W: Word>(blocks: &Vec<Block<W>>) -> (r: Vec<W>)
    ensures
        r@ == words_of_blocks::<W>(block_views(blocks@)),
{
    let mut words: Vec<W> = Vec::new();
    let mut k: usize = 0;
    while k < blocks.len()
        invariant
            k <= blocks@.len(),
            words@ == words_of_blocks::<W>(block_views(blocks@.subrange(0, k as int))),
        decreases blocks@.len() - k,
    {
        let pair = blocks[k].to_words();
        words.push(pair[0]);
        words.push(pair[1]);
        k += 1;
        proof {
            assert(words@ =~= words_of_blocks::<W>(block_views(blocks@.subrange(0, k as int))));
        }
    }
    proof {
        assert(blocks@.subrange(0, k as int) =~= blocks@);
    }
    words
}

/// The bytes of the blocks: their words in order, each little-endian.
fn blocks_to_bytes<W: Word>(blocks: &Vec<Block<W>>) -> (r: Vec<u8>)
    ensures
        r@ == bytes_of_words::<W>(words_of_blocks::<W>(block_views(blocks@))),
{
    proof {
        W::lemma_sizes();
        W::lemma_le_bytes();
    }
    let words = blocks_to_words(blocks);
    let u = W::BYTES;
    let mut out: Vec<u8> = Vec::new();
    let mut k: usize = 0;
    while k < words.len()
        invariant
            u == W::BYTES,
            2 <= u <= 8,
            k <= words@.len(),
            out@.len() == k * u,
            forall|x: W| (#[trigger] W::spec_to_le_bytes(x)).len() == W::BYTES,
            forall|n: int|
                0 <= n < out@.len() ==> #[trigger] out@[n] == W::spec_to_le_bytes(
                    words@[n / (u as int)],
                )[n % (u as int)],
        decreases words@.len() - k,
    {
        let bytes = words[k].to_le_bytes();
        let mut m: usize = 0;
        while m < u
            invariant
                u == W::BYTES,
                2 <= u <= 8,
                k < words@.len(),
                m <= u,
                bytes@ == W::spec_to_le_bytes(words@[k as int]),
                bytes@.len() == u,
                out@.len() == k * u + m,
                forall|n: int|
                    0 <= n < out@.len() ==> #[trigger] out@[n] == W::spec_to_le_bytes(
                        words@[n / (u as int)],
                    )[n % (u as int)],
            decreases u - m,
        {
            proof {
                lemma_chunk_index((k * u + m) as int, k as int, u as int);
            }
            out.push(bytes[m]);
            m += 1;
        }
        k += 1;
        proof {
            vstd::arithmetic::mul::lemma_mul_is_distributive_add_other_way(u as int, (k - 1) as int, 1);
        }
    }
    proof {
        assert(out@ =~= bytes_of_words::<W>(words@));
    }
    out
}

} // verus!
