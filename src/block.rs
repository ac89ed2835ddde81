//! The block transform: encryption of a two-word block and its inverse.

use crate::rc5::RC5;
use crate::word::Word;
use vstd::prelude::*;

verus! {

/// Round `i` of encryption on the pair `(A, B)`:
/// `A = ((A ^ B) <<< B) + S[2i]`, then `B = ((B ^ A) <<< A) + S[2i + 1]`.
pub open spec fn encrypt_round<W: Word>(x: (W, W), s: Seq<W>, i: nat) -> (W, W) {
    let a = W::spec_add(W::spec_rotl(W::spec_xor(x.0, x.1), x.1), s[2 * i as int]);
    let b = W::spec_add(W::spec_rotl(W::spec_xor(x.1, a), a), s[2 * i + 1 as int]);
    (a, b)
}

/// Round `i` of decryption, the inverse of round `i` of encryption:
/// `B = ((B - S[2i + 1]) >>> A) ^ A`, then `A = ((A - S[2i]) >>> B) ^ B`.
pub open spec fn decrypt_round<W: Word>(x: (W, W), s: Seq<W>, i: nat) -> (W, W) {
    let b = W::spec_xor(W::spec_rotr(W::spec_sub(x.1, s[2 * i + 1 as int]), x.0), x.0);
    let a = W::spec_xor(W::spec_rotr(W::spec_sub(x.0, s[2 * i as int]), b), b);
    (a, b)
}

/// The block after the first `k` rounds of encryption with the table `s`:
/// `(A + S[0], B + S[1])`, then rounds `1` to `k`.
pub open spec fn encrypt<W: Word>(x: (W, W), s: Seq<W>, k: nat) -> (W, W)
    decreases k,
{
    if k == 0 {
        (W::spec_add(x.0, s[0]), W::spec_add(x.1, s[1]))
    } else {
        encrypt_round::<W>(encrypt::<W>(x, s, (k - 1) as nat), s, k)
    }
}

/// The block after rounds `k` down to `1` of decryption.
pub open spec fn decrypt_rounds<W: Word>(x: (W, W), s: Seq<W>, k: nat) -> (W, W)
    decreases k,
{
    if k == 0 {
        x
    } else {
        decrypt_rounds::<W>(decrypt_round::<W>(x, s, k), s, (k - 1) as nat)
    }
}

/// Decryption with `r` rounds: rounds `r` down to `1`, then
/// `(A - S[0], B - S[1])`.
pub open spec fn decrypt<W: Word>(x: (W, W), s: Seq<W>, r: nat) -> (W, W) {
    let y = decrypt_rounds::<W>(x, s, r);
    (W::spec_sub(y.0, s[0]), W::spec_sub(y.1, s[1]))
}

/// A round of decryption undoes the same round of encryption.
pub proof fn lemma_decrypt_round<W: Word>(x: (W, W), s: Seq<W>, i: nat)
    ensures
        decrypt_round::<W>(encrypt_round::<W>(x, s, i), s, i) == x,
{
    let y = encrypt_round::<W>(x, s, i);
    W::lemma_add_sub(W::spec_rotl(W::spec_xor(x.1, y.0), y.0), s[2 * i + 1 as int]);
    W::lemma_rotr_rotl(W::spec_xor(x.1, y.0), y.0);
    W::lemma_xor_xor(x.1, y.0);
    W::lemma_add_sub(W::spec_rotl(W::spec_xor(x.0, x.1), x.1), s[2 * i as int]);
    W::lemma_rotr_rotl(W::spec_xor(x.0, x.1), x.1);
    W::lemma_xor_xor(x.0, x.1);
}

/// Decryption with `r` rounds undoes encryption with `r` rounds under the
/// same table, for every block and every `r`, including `0`.
pub proof fn lemma_decrypt_encrypt<W: Word>(x: (W, W), s: Seq<W>, r: nat)
    ensures
        decrypt::<W>(encrypt::<W>(x, s, r), s, r) == x,
{
    lemma_decrypt_rounds::<W>(x, s, r);
    W::lemma_add_sub(x.0, s[0]);
    W::lemma_add_sub(x.1, s[1]);
}

proof fn lemma_decrypt_rounds<W: Word>(x: (W, W), s: Seq<W>, k: nat)
    ensures
        decrypt_rounds::<W>(encrypt::<W>(x, s, k), s, k) == encrypt::<W>(x, s, 0),
    decreases k,
{
    if k > 0 {
        lemma_decrypt_round::<W>(encrypt::<W>(x, s, (k - 1) as nat), s, k);
        lemma_decrypt_rounds::<W>(x, s, (k - 1) as nat);
    }
}

/// With no rounds, encryption only adds `S[0]` and `S[1]` and decryption
/// only subtracts them: no exclusive or and no rotation take place.
pub proof fn lemma_zero_rounds<W: Word>(x: (W, W), s: Seq<W>)
    ensures
        encrypt::<W>(x, s, 0) == (W::spec_add(x.0, s[0]), W::spec_add(x.1, s[1])),
        decrypt::<W>(x, s, 0) == (W::spec_sub(x.0, s[0]), W::spec_sub(x.1, s[1])),
{
}

/// A block: a pair of words.
pub struct Block<W>(W, W);

impl<W> View for Block<W> {
    type V = (W, W);

    closed spec fn view(&self) -> (W, W) {
        (self.0, self.1)
    }
}

impl<W: Word> Block<W> {
    /// Creates a new block from words `a` and `b`.
    pub fn new(a: W, b: W) -> (r: Self)
        ensures
            r@ == (a, b),
    {
        Block(a, b)
    }

    /// Creates a new block from the first two words of a slice.
    pub fn from_words(ws: &[W]) -> (r: Self)
        requires
            ws@.len() >= 2,
        ensures
            r@ == (ws@[0], ws@[1]),
    {
        Self::new(ws[0], ws[1])
    }

    /// The two words of the block, in order.
    pub fn to_words(&self) -> (r: Vec<W>)
        ensures
            r@ == seq![self@.0, self@.1],
    {
        let mut v: Vec<W> = Vec::new();
        v.push(self.0);
        v.push(self.1);
        proof {
            assert(v@ =~= seq![self@.0, self@.1]);
        }
        v
    }

    /// Encrypts the block.
    pub fn encode(&self, ctx: &RC5<W>) -> (r: Self)
        requires
            ctx.wf(),
        ensures
            r@ == encrypt::<W>(self@, ctx.table(), ctx.rounds()),
    {
        let key_table = ctx.key_table();
        let r = ctx.number_of_rounds();
        let mut a = self.0.wrapping_add(&key_table[0]);
        let mut b = self.1.wrapping_add(&key_table[1]);
        let mut i: usize = 1;
        while i <= r
            invariant
                1 <= i <= r + 1,
                r <= 256,
                key_table@ == ctx.table(),
                r == ctx.rounds(),
                key_table@.len() == 2 * (r + 1),
                (a, b) == encrypt::<W>(self@, ctx.table(), (i - 1) as nat),
            decreases r + 1 - i,
        {
            a = a.bitxor(b).rotate_left_by(b).wrapping_add(&key_table[2 * i]);
            b = b.bitxor(a).rotate_left_by(a).wrapping_add(&key_table[2 * i + 1]);
            i += 1;
        }
        Block(a, b)
    }

    /// Decrypts the block.
    pub fn decode(&self, ctx: &RC5<W>) -> (r: Self)
        requires
            ctx.wf(),
        ensures
            r@ == decrypt::<W>(self@, ctx.table(), ctx.rounds()),
    {
        let key_table = ctx.key_table();
        let r = ctx.number_of_rounds();
        let mut a = self.0;
        let mut b = self.1;
        let mut i: usize = r;
        while i >= 1
            invariant
                i <= r,
                r <= 256,
                key_table@ == ctx.table(),
                r == ctx.rounds(),
                key_table@.len() == 2 * (r + 1),
                decrypt_rounds::<W>(self@, ctx.table(), r as nat) == decrypt_rounds::<W>(
                    (a, b),
                    ctx.table(),
                    i as nat,
                ),
            decreases i,
        {
            b = b.wrapping_sub(&key_table[2 * i + 1]).rotate_right_by(a).bitxor(a);
            a = a.wrapping_sub(&key_table[2 * i]).rotate_right_by(b).bitxor(b);
            i -= 1;
        }
        b = b.wrapping_sub(&key_table[1]);
        a = a.wrapping_sub(&key_table[0]);
        Block(a, b)
    }
}

} // verus!
