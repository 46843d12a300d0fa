use vstd::prelude::*;

use crate::word::Word;

verus! {

/// A length mismatch: a byte key or a block buffer of the wrong size.
#[derive(Debug, Clone, Copy, PartialEq, Eq)]
pub struct Error;

/// Byte-buffer encryption and decryption of one block, in place.
pub trait SpeckCipher {
    /// Number of bytes in a block.
    spec fn block_len(&self) -> nat;

    /// The encryption of a block of `block_len` bytes.
    spec fn sealed(&self, block: Seq<u8>) -> Seq<u8>;

    /// The decryption of a block of `block_len` bytes.
    spec fn opened(&self, block: Seq<u8>) -> Seq<u8>;

    /// Encrypts `buffer` in place; a buffer of the wrong length is left as
    /// it was and an error is returned.
    fn seal_in_place(&self, buffer: &mut [u8]) -> (r: Result<(), Error>)
        ensures
            r is Ok <==> old(buffer)@.len() == self.block_len(),
            r is Ok ==> final(buffer)@ == self.sealed(old(buffer)@),
            r is Err ==> final(buffer)@ == old(buffer)@,
    ;

    /// Decrypts `buffer` in place; a buffer of the wrong length is left as
    /// it was and an error is returned.
    fn open_in_place(&self, buffer: &mut [u8]) -> (r: Result<(), Error>)
        ensures
            r is Ok <==> old(buffer)@.len() == self.block_len(),
            r is Ok ==> final(buffer)@ == self.opened(old(buffer)@),
            r is Err ==> final(buffer)@ == old(buffer)@,
    ;
}

pub type Speck64_96 = Speck<u32, 3, 26, 3, 8>;

pub type Speck64_128 = Speck<u32, 4, 27, 3, 8>;

pub type Speck128_128 = Speck<u64, 2, 32, 3, 8>;

pub type Speck128_192 = Speck<u64, 3, 33, 3, 8>;

pub type Speck128_256 = Speck<u64, 4, 34, 3, 8>;

/// A SPECK cipher instance: the round keys derived from one key, in the
/// order in which encryption applies them.
pub struct Speck<
    T: Word,
    const KEY_WORDS: usize,
    const ROUNDS: usize,
    const ROTATE_LEFT: u32,
    const ROTATE_RIGHT: u32,
> {
    round_keys: [T; ROUNDS],
}

impl<
    T: Word,
    const KEY_WORDS: usize,
    const ROUNDS: usize,
    const ROTATE_LEFT: u32,
    const ROTATE_RIGHT: u32,
> View for Speck<T, KEY_WORDS, ROUNDS, ROTATE_LEFT, ROTATE_RIGHT> {
    type V = Seq<T>;

    /// The round keys.
    closed spec fn view(&self) -> Seq<T> {
        self.round_keys@
    }
}

impl<
    T: Word,
    const KEY_WORDS: usize,
    const ROUNDS: usize,
    const ROTATE_LEFT: u32,
    const ROTATE_RIGHT: u32,
> Speck<T, KEY_WORDS, ROUNDS, ROTATE_LEFT, ROTATE_RIGHT> {
    /// One round: `x` is rotated right, added to `y` and mixed with the
    /// round key; `y` is rotated left and mixed with the new `x`.
    pub open spec fn spec_round(x: T, y: T, k: T) -> (T, T) {
        let x1 = x.spec_rotate_right(ROTATE_RIGHT).spec_wrapping_add(y).spec_xor(k);
        let y1 = y.spec_rotate_left(ROTATE_LEFT).spec_xor(x1);
        (x1, y1)
    }

    /// The inverse of one round under the same round key.
    pub open spec fn spec_unround(x: T, y: T, k: T) -> (T, T) {
        let y1 = y.spec_xor(x).spec_rotate_right(ROTATE_LEFT);
        let x1 = x.spec_xor(k).spec_wrapping_sub(y1).spec_rotate_left(ROTATE_RIGHT);
        (x1, y1)
    }

    fn round(x: T, y: T, k: T) -> (r: (T, T))
        ensures
            r == Self::spec_round(x, y, k),
    {
        let mut x = x.rotate_right(ROTATE_RIGHT);
        x = x.wrapping_add(y);
        x = x.xor(k);
        let mut y = y.rotate_left(ROTATE_LEFT);
        y = y.xor(x);
        (x, y)
    }

    fn unround(x: T, y: T, k: T) -> (r: (T, T))
        ensures
            r == Self::spec_unround(x, y, k),
    {
        let mut y = y.xor(x);
        y = y.rotate_right(ROTATE_LEFT);
        let mut x = x.xor(k);
        x = x.wrapping_sub(y);
        x = x.rotate_left(ROTATE_RIGHT);
        (x, y)
    }

    /// The key state after `r` schedule steps: index 0 holds the running
    /// key, the others the leftover key words.
    pub open spec fn key_state(words: Seq<T>, r: nat) -> Seq<T>
        decreases r,
    {
        if r == 0 {
            words
        } else {
            let prev = Self::key_state(words, (r - 1) as nat);
            let i = 1 + (r - 1) % (KEY_WORDS - 1);
            let (l, k) = Self::spec_round(prev[i], prev[0], T::spec_from_usize((r - 1) as usize));
            prev.update(i, l).update(0, k)
        }
    }

    /// The `ROUNDS` round keys derived from the key words `words`.
    pub open spec fn key_schedule(words: Seq<T>) -> Seq<T> {
        Seq::new(ROUNDS as nat, |r: int| Self::key_state(words, r as nat)[0])
    }

    /// The key words read little-endian from consecutive chunks of `bytes`.
    pub open spec fn key_words(bytes: Seq<u8>) -> Seq<T> {
        let n = T::spec_byte_len() as int;
        Seq::new(KEY_WORDS as nat, |i: int| T::spec_from_le(bytes.subrange(i * n, i * n + n)))
    }

    /// A pair `(x, y)` after the rounds of `keys`, applied in order.
    pub open spec fn encrypt_pair(keys: Seq<T>, x: T, y: T) -> (T, T)
        decreases keys.len(),
    {
        if keys.len() == 0 {
            (x, y)
        } else {
            let (x1, y1) = Self::encrypt_pair(keys.drop_last(), x, y);
            Self::spec_round(x1, y1, keys.last())
        }
    }

    /// A pair `(x, y)` after the inverse rounds of `keys`, applied from the
    /// last key to the first.
    pub open spec fn decrypt_pair(keys: Seq<T>, x: T, y: T) -> (T, T)
        decreases keys.len(),
    {
        if keys.len() == 0 {
            (x, y)
        } else {
            let (x1, y1) = Self::spec_unround(x, y, keys.last());
            Self::decrypt_pair(keys.drop_last(), x1, y1)
        }
    }

    /// Encryption of a block `[y, x]` under `keys`, returned as `[y, x]`.
    pub open spec fn encrypt_block(keys: Seq<T>, block: Seq<T>) -> Seq<T> {
        let (x, y) = Self::encrypt_pair(keys, block[1], block[0]);
        seq![y, x]
    }

    /// Decryption of a block `[y, x]` under `keys`, returned as `[y, x]`.
    pub open spec fn decrypt_block(keys: Seq<T>, block: Seq<T>) -> Seq<T> {
        let (x, y) = Self::decrypt_pair(keys, block[1], block[0]);
        seq![y, x]
    }

    /// The two words of a block read little-endian from `bytes`.
    pub open spec fn block_words(bytes: Seq<u8>) -> Seq<T> {
        let n = T::spec_byte_len() as int;
        seq![T::spec_from_le(bytes.subrange(0, n)), T::spec_from_le(bytes.subrange(n, 2 * n))]
    }

    /// The little-endian bytes of the two words of a block.
    pub open spec fn block_bytes(block: Seq<T>) -> Seq<u8> {
        block[0].spec_to_le() + block[1].spec_to_le()
    }

    /// Derives the round keys from the key words: word 0 is the initial
    /// running key, the others the initial leftover words.
    pub fn new(words: [T; KEY_WORDS]) -> (r: Self)
        requires
            KEY_WORDS >= 2,
        ensures
            r@ == Self::key_schedule(words@),
    {
        let ghost orig = words@;
        let mut words = words;
        let mut key = words[0];
        let mut round_keys = [key; ROUNDS];
        let mut round: usize = 0;
        while round < ROUNDS
            invariant
                KEY_WORDS >= 2,
                round <= ROUNDS,
                words@.len() == KEY_WORDS,
                round_keys@.len() == ROUNDS,
                words@.update(0, key) == Self::key_state(orig, round as nat),
                forall|j: int|
                    0 <= j < round ==> round_keys@[j] == #[trigger] Self::key_state(
                        orig,
                        j as nat,
                    )[0],
            decreases ROUNDS - round,
        {
            round_keys[round] = key;
            let round_word = T::from_usize(round);
            let i = 1 + round % (KEY_WORDS - 1);
            let (l, k) = Self::round(words[i], key, round_word);
            words[i] = l;
            key = k;
            assert(words@.update(0, key) =~= Self::key_state(orig, (round + 1) as nat));
            round = round + 1;
        }
        let r = Speck { round_keys };
        assert(r@ =~= Self::key_schedule(orig));
        r
    }

    /// Builds a cipher from a byte key of exactly `KEY_WORDS` words, each
    /// read little-endian from its own chunk; any other length is an error.
    pub fn new_slice(key: &[u8]) -> (r: Result<Self, Error>)
        requires
            KEY_WORDS >= 2,
        ensures
            r is Ok <==> key@.len() == KEY_WORDS * T::spec_byte_len(),
            r is Ok ==> r->Ok_0@ == Self::key_schedule(Self::key_words(key@)),
    {
        let word_size = T::byte_len();
        let len = key.len();
        match word_size.checked_mul(KEY_WORDS) {
            Some(expected) => {
                if expected != len {
                    return Err(Error);
                }
            },
            None => {
                return Err(Error);
            },
        }
        let ghost n = word_size as int;
        let mut words = [T::from_usize(0); KEY_WORDS];
        let mut i: usize = 0;
        while i < KEY_WORDS
            invariant
                key@.len() == KEY_WORDS * n,
                n == T::spec_byte_len(),
                n == word_size,
                n > 0,
                key@.len() == len,
                i <= KEY_WORDS,
                words@.len() == KEY_WORDS,
                forall|j: int|
                    0 <= j < i ==> #[trigger] words@[j] == T::spec_from_le(
                        key@.subrange(j * n, j * n + n),
                    ),
            decreases KEY_WORDS - i,
        {
            assert(i * n + n <= KEY_WORDS * n) by (nonlinear_arith)
                requires
                    i < KEY_WORDS,
                    n > 0,
            ;
            words[i] = T::from_le_bytes(key, i * word_size);
            i = i + 1;
        }
        assert(words@ =~= Self::key_words(key@));
        Ok(Self::new(words))
    }

    /// Encrypts the block `[y, x]`, returning `[y, x]` after all rounds.
    pub fn encrypt_words(&self, input: [T; 2]) -> (r: [T; 2])
        ensures
            r@ == Self::encrypt_block(self@, input@),
    {
        let mut y = input[0];
        let mut x = input[1];
        let mut i: usize = 0;
        while i < ROUNDS
            invariant
                i <= ROUNDS,
                self.round_keys@.len() == ROUNDS,
                (x, y) == Self::encrypt_pair(self@.take(i as int), input@[1], input@[0]),
            decreases ROUNDS - i,
        {
            assert(self@.take(i + 1).drop_last() =~= self@.take(i as int));
            let k = self.round_keys[i];
            let (x1, y1) = Self::round(x, y, k);
            x = x1;
            y = y1;
            i = i + 1;
        }
        assert(self@.take(ROUNDS as int) =~= self@);
        let output = [y, x];
        assert(output@ =~= Self::encrypt_block(self@, input@));
        output
    }

    /// Decrypts the block `[y, x]`, undoing the rounds from the last round
    /// key to the first.
    pub fn decrypt_words(&self, input: [T; 2]) -> (r: [T; 2])
        ensures
            r@ == Self::decrypt_block(self@, input@),
    {
        let mut y = input[0];
        let mut x = input[1];
        let mut i: usize = ROUNDS;
        assert(self@.take(ROUNDS as int) =~= self@);
        while i > 0
            invariant
                i <= ROUNDS,
                self.round_keys@.len() == ROUNDS,
                Self::decrypt_pair(self@.take(i as int), x, y) == Self::decrypt_pair(
                    self@,
                    input@[1],
                    input@[0],
                ),
            decreases i,
        {
            assert(self@.take(i as int).drop_last() =~= self@.take(i - 1));
            let k = self.round_keys[i - 1];
            let (x1, y1) = Self::unround(x, y, k);
            x = x1;
            y = y1;
            i = i - 1;
        }
        let output = [y, x];
        assert(output@ =~= Self::decrypt_block(self@, input@));
        output
    }

    /// Undoing a round with the same round key gives back its input.
    pub proof fn lemma_unround_round(x: T, y: T, k: T)
        ensures
            ({
                let (x1, y1) = Self::spec_round(x, y, k);
                Self::spec_unround(x1, y1, k) == (x, y)
            }),
    {
        let xr = x.spec_rotate_right(ROTATE_RIGHT);
        let x1 = xr.spec_wrapping_add(y).spec_xor(k);
        let yl = y.spec_rotate_left(ROTATE_LEFT);
        T::lemma_xor_cancel(yl, x1);
        T::lemma_rotate_cancel(y, ROTATE_LEFT);
        T::lemma_xor_cancel(xr.spec_wrapping_add(y), k);
        T::lemma_add_sub(xr, y);
        T::lemma_rotate_cancel(x, ROTATE_RIGHT);
    }

    /// Decrypting under the same round keys undoes encryption of a pair.
    pub proof fn lemma_decrypt_pair_encrypt_pair(keys: Seq<T>, x: T, y: T)
        ensures
            ({
                let (x1, y1) = Self::encrypt_pair(keys, x, y);
                Self::decrypt_pair(keys, x1, y1) == (x, y)
            }),
        decreases keys.len(),
    {
        if keys.len() > 0 {
            let (x0, y0) = Self::encrypt_pair(keys.drop_last(), x, y);
            Self::lemma_unround_round(x0, y0, keys.last());
            Self::lemma_decrypt_pair_encrypt_pair(keys.drop_last(), x, y);
        }
    }

    /// For every list of round keys and every block, decrypting the
    /// encrypted block gives the block back.
    pub proof fn lemma_decrypt_encrypt(keys: Seq<T>, block: Seq<T>)
        requires
            block.len() == 2,
        ensures
            Self::decrypt_block(keys, Self::encrypt_block(keys, block)) == block,
    {
        Self::lemma_decrypt_pair_encrypt_pair(keys, block[1], block[0]);
        assert(Self::decrypt_block(keys, Self::encrypt_block(keys, block)) =~= block);
    }

    /// For every cipher and every buffer of one block, opening the sealed
    /// buffer gives the same bytes back.
    pub proof fn lemma_open_seal(&self, block: Seq<u8>)
        requires
            block.len() == self.block_len(),
        ensures
            self.opened(self.sealed(block)) == block,
    {
        let n = T::spec_byte_len() as int;
        let words = Self::block_words(block);
        let enc = Self::encrypt_block(self@, words);
        let sealed = Self::block_bytes(enc);
        T::lemma_decode_encode(enc[0]);
        T::lemma_decode_encode(enc[1]);
        assert(sealed.subrange(0, n) =~= enc[0].spec_to_le());
        assert(sealed.subrange(n, 2 * n) =~= enc[1].spec_to_le());
        assert(Self::block_words(sealed) =~= enc);
        assert(words.len() == 2);
        Self::lemma_decrypt_encrypt(self@, words);
        T::lemma_encode_decode(block.subrange(0, n));
        T::lemma_encode_decode(block.subrange(n, 2 * n));
        assert(Self::block_bytes(words) =~= block);
    }

    /// Two ciphers built from the same key words have the same round keys
    /// and seal every buffer alike.
    pub proof fn lemma_schedule_deterministic(words: Seq<T>, a: Self, b: Self, block: Seq<u8>)
        requires
            a@ == Self::key_schedule(words),
            b@ == Self::key_schedule(words),
        ensures
            a@ == b@,
            a.sealed(block) == b.sealed(block),
    {
    }
}

impl<
    T: Word,
    const KEY_WORDS: usize,
    const ROUNDS: usize,
    const ROTATE_LEFT: u32,
    const ROTATE_RIGHT: u32,
> SpeckCipher for Speck<T, KEY_WORDS, ROUNDS, ROTATE_LEFT, ROTATE_RIGHT> {
    open spec fn block_len(&self) -> nat {
        2 * T::spec_byte_len()
    }

    open spec fn sealed(&self, block: Seq<u8>) -> Seq<u8> {
        Self::block_bytes(Self::encrypt_block(self@, Self::block_words(block)))
    }

    open spec fn opened(&self, block: Seq<u8>) -> Seq<u8> {
        Self::block_bytes(Self::decrypt_block(self@, Self::block_words(block)))
    }

    fn seal_in_place(&self, buffer: &mut [u8]) -> (r: Result<(), Error>) {
        let word_size = T::byte_len();
        if buffer.len() % 2 != 0 || buffer.len() / 2 != word_size {
            return Err(Error);
        }
        let words = read_block(buffer, word_size);
        let words = self.encrypt_words(words);
        write_block(buffer, word_size, words);
        Ok(())
    }

    fn open_in_place(&self, buffer: &mut [u8]) -> (r: Result<(), Error>) {
        let word_size = T::byte_len();
        if buffer.len() % 2 != 0 || buffer.len() / 2 != word_size {
            return Err(Error);
        }
        let words = read_block(buffer, word_size);
        let words = self.decrypt_words(words);
        write_block(buffer, word_size, words);
        Ok(())
    }
}

/// Reads the two little-endian words of a block buffer.
fn read_block<T: Word>(buffer: &[u8], word_size: usize) -> (r: [T; 2])
    requires
        word_size == T::spec_byte_len(),
        buffer@.len() == 2 * word_size,
    ensures
        r@ == seq![
            T::spec_from_le(buffer@.subrange(0, word_size as int)),
            T::spec_from_le(buffer@.subrange(word_size as int, 2 * word_size)),
        ],
{
    let y = T::from_le_bytes(buffer, 0);
    let x = T::from_le_bytes(buffer, word_size);
    let r = [y, x];
    assert(r@ =~= seq![
        T::spec_from_le(buffer@.subrange(0, word_size as int)),
        T::spec_from_le(buffer@.subrange(word_size as int, 2 * word_size)),
    ]);
    r
}

/// Overwrites a block buffer with the little-endian bytes of two words.
fn write_block<T: Word>(buffer: &mut [u8], word_size: usize, words: [T; 2])
    requires
        word_size == T::spec_byte_len(),
        old(buffer)@.len() == 2 * word_size,
    ensures
        final(buffer)@ == words@[0].spec_to_le() + words@[1].spec_to_le(),
{
    proof {
        T::lemma_decode_encode(words@[0]);
        T::lemma_decode_encode(words@[1]);
    }
    words[0].copy_to_slice(buffer, 0);
    words[1].copy_to_slice(buffer, word_size);
    assert(buffer@ =~= words@[0].spec_to_le() + words@[1].spec_to_le());
}

} // verus!
