//! The key expansion: from a secret key and a number of rounds to the table
//! of round keys.
//!
//! The expansion has a certain one-wayness: the secret key is not easy to
//! recover from the table.

use crate::error::Error;
use crate::secret_key::{key_words, SecretKey};
use crate::word::Word;
use vstd::prelude::*;

verus! {

/// The largest number of rounds accepted.
pub const MAX_NUMBER_OF_ROUNDS: usize = 256;

/// The `i`-th word of the table before the key is mixed in: `P + i * Q`
/// modulo `2^w`.
pub open spec fn seed_word<W: Word>(i: nat) -> W
    decreases i,
{
    if i == 0 {
        W::spec_p()
    } else {
        W::spec_add(seed_word::<W>((i - 1) as nat), W::spec_q())
    }
}

/// The table of `t` words before the key is mixed in.
pub open spec fn initial_table<W: Word>(t: nat) -> Seq<W> {
    Seq::new(t, |i: int| seed_word::<W>(i as nat))
}

/// The state of the mixing: the table `S`, the key words `L`, the
/// accumulators `A` and `B`, and the indices `i` into `S` and `j` into `L`.
pub type MixState<W> = (Seq<W>, Seq<W>, W, W, nat, nat);

/// One step of the mixing:
/// `A = S[i] = (S[i] + A + B) <<< 3`, then
/// `B = L[j] = (L[j] + A + B) <<< (A + B)`, then `i` and `j` move on by one,
/// each wrapping around its own sequence.
pub open spec fn mix_step<W: Word>(st: MixState<W>) -> MixState<W> {
    let (s, l, a, b, i, j) = st;
    let a2 = W::spec_rotl_bits(W::spec_add(W::spec_add(s[i as int], a), b), 3);
    let b2 = W::spec_rotl(W::spec_add(W::spec_add(l[j as int], a2), b), W::spec_add(a2, b));
    (s.update(i as int, a2), l.update(j as int, b2), a2, b2, (i + 1) % s.len(), (j + 1) % l.len())
}

/// The state after `n` steps of mixing, from `A = B = 0` and `i = j = 0`.
pub open spec fn mix_steps<W: Word>(s: Seq<W>, l: Seq<W>, n: nat) -> MixState<W>
    decreases n,
{
    if n == 0 {
        (s, l, W::spec_zero(), W::spec_zero(), 0, 0)
    } else {
        mix_step::<W>(mix_steps::<W>(s, l, (n - 1) as nat))
    }
}

/// The number of mixing steps for a table of `t` words and `c` key words:
/// `3 * max(t, c)`.
pub open spec fn mix_count(t: nat, c: nat) -> nat {
    3 * if t >= c {
        t
    } else {
        c
    }
}

/// The table `s` once the key words `l` have been mixed into it.
pub open spec fn mixed_table<W: Word>(s: Seq<W>, l: Seq<W>) -> Seq<W> {
    mix_steps::<W>(s, l, mix_count(s.len(), l.len())).0
}

/// The round-key table of `2 * (rounds + 1)` words for a key.
pub open spec fn expand_key<W: Word>(key: Seq<u8>, rounds: nat) -> Seq<W> {
    mixed_table::<W>(initial_table::<W>(2 * (rounds + 1)), key_words::<W>(key))
}

/// Mixing keeps the lengths of the table and of the key words, and the
/// indices within them.
pub proof fn lemma_mix_steps_len<W: Word>(s: Seq<W>, l: Seq<W>, n: nat)
    requires
        s.len() > 0,
        l.len() > 0,
    ensures
        mix_steps::<W>(s, l, n).0.len() == s.len(),
        mix_steps::<W>(s, l, n).1.len() == l.len(),
        mix_steps::<W>(s, l, n).4 < s.len(),
        mix_steps::<W>(s, l, n).5 < l.len(),
    decreases n,
{
    if n > 0 {
        lemma_mix_steps_len::<W>(s, l, (n - 1) as nat);
    }
}

/// The round-key table for `rounds` rounds has `2 * (rounds + 1)` words.
pub proof fn lemma_expand_key_len<W: Word>(key: Seq<u8>, rounds: nat)
    ensures
        expand_key::<W>(key, rounds).len() == 2 * (rounds + 1),
{
    let t = initial_table::<W>(2 * (rounds + 1));
    let l = key_words::<W>(key);
    W::lemma_sizes();
    crate::secret_key::lemma_key_words_len::<W>(key, 0);
    lemma_mix_steps_len::<W>(t, l, mix_count(t.len(), l.len()));
}

/// Expanded key table: the round keys that encryption and decryption use.
#[derive(Debug, PartialEq, Eq)]
pub struct ExpandedKeyTable<W>(pub(crate) Vec<W>);

impl<W> View for ExpandedKeyTable<W> {
    type V = Seq<W>;

    closed spec fn view(&self) -> Seq<W> {
        self.0@
    }
}

impl<W: Word> ExpandedKeyTable<W> {
    /// Creates the expanded key table for a secret key and a number of
    /// rounds: `2 * (rounds + 1)` words. Fails when the number of rounds is
    /// greater than 256.
    pub fn new(key: &SecretKey, number_of_rounds: usize) -> (r: Result<Self, Error>)
        ensures
            number_of_rounds > MAX_NUMBER_OF_ROUNDS ==> r == Err::<Self, Error>(
                Error::InvalidNumberOfRounds(number_of_rounds),
            ),
            number_of_rounds <= MAX_NUMBER_OF_ROUNDS ==> r is Ok && r->Ok_0@ == expand_key::<W>(
                key@,
                number_of_rounds as nat,
            ),
    {
        if number_of_rounds > MAX_NUMBER_OF_ROUNDS {
            return Err(Error::InvalidNumberOfRounds(number_of_rounds));
        }
        let mut key_table = Self::setup(2 * (number_of_rounds + 1));
        let key_len = key.len();
        let words = key.to_words::<W>();
        proof {
            W::lemma_sizes();
            if key_len > 0 {
                vstd::arithmetic::div_mod::lemma_div_is_ordered_by_denominator(
                    (key_len - 1) as int,
                    1,
                    W::BYTES as int,
                );
            }
        }
        Self::mixin(&mut key_table, words);
        Ok(ExpandedKeyTable(key_table))
    }

    /// The words of the table.
    pub fn words(&self) -> (r: &[W])
        ensures
            r@ == self@,
    {
        self.0.as_slice()
    }

    /// Creates the table of `len` words before the key is mixed in, an
    /// arithmetic progression modulo `2^w`: `S[0] = P`, `S[i] = S[i - 1] + Q`.
    fn setup(len: usize) -> (r: Vec<W>)
        requires
            len >= 1,
        ensures
            r@ == initial_table::<W>(len as nat),
    {
        let mut key_table: Vec<W> = Vec::new();
        key_table.push(W::p());
        let mut i: usize = 1;
        while i < len
            invariant
                1 <= i <= len,
                key_table@ == initial_table::<W>(i as nat),
            decreases len - i,
        {
            let next = key_table[i - 1].wrapping_add(&W::q());
            key_table.push(next);
            i += 1;
            proof {
                assert(key_table@ =~= initial_table::<W>(i as nat));
            }
        }
        key_table
    }

    /// Mixes the key words into the table in `3 * max(t, c)` steps over the
    /// table of `t` words and the `c` key words.
    fn mixin(key_table: &mut Vec<W>, key_words: Vec<W>)
        requires
            old(key_table)@.len() > 0,
            key_words@.len() > 0,
            mix_count(old(key_table)@.len(), key_words@.len()) <= usize::MAX,
        ensures
            final(key_table)@ == mixed_table::<W>(old(key_table)@, key_words@),
    {
        let ghost s0 = key_table@;
        let ghost l0 = key_words@;
        let mut key_words = key_words;
        let t = key_table.len();
        let c = key_words.len();
        let mut a = W::zero();
        let mut b = W::zero();
        let mut i: usize = 0;
        let mut j: usize = 0;
        let mix_steps_count: usize = if t >= c {
            3 * t
        } else {
            3 * c
        };
        let mut k: usize = 0;
        proof {
            W::lemma_sizes();
        }
        while k < mix_steps_count
            invariant
                t == s0.len(),
                c == l0.len(),
                t > 0,
                c > 0,
                mix_steps_count == mix_count(t as nat, c as nat),
                W::BITS == 8 * W::BYTES,
                2 <= W::BYTES,
                k <= mix_steps_count,
                key_table@.len() == t,
                key_words@.len() == c,
                i < t,
                j < c,
                mix_steps::<W>(s0, l0, k as nat) == (key_table@, key_words@, a, b, i as nat, j as nat),
            decreases mix_steps_count - k,
        {
            // The table's rotation is by the fixed amount 3, below the size
            // of every word; the key words' rotation is by `A + B`, which
            // goes through the rotation that reduces its amount.
            let x = key_table[i].wrapping_add(&a).wrapping_add(&b).rotate_left(3);
            key_table.set(i, x);
            a = x;
            let y = key_words[j].wrapping_add(&a).wrapping_add(&b).rotate_left_by(a.wrapping_add(&b));
            key_words.set(j, y);
            b = y;
            i = (i + 1) % t;
            j = (j + 1) % c;
            k += 1;
        }
    }
}

} // verus!
