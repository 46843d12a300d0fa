use vstd::prelude::*;

verus! {

/// The elementary unsigned integer of a block: the minimal algebra that the
/// round transform and the byte encoding need.
///
/// Each operation is described by a spec function; the proof functions give
/// the algebraic facts on which the inverse round relies.
pub trait Word: Copy + Sized {
    /// Number of bytes in the little-endian encoding of a word.
    spec fn spec_byte_len() -> nat;

    /// The word whose little-endian encoding is `bytes`.
    spec fn spec_from_le(bytes: Seq<u8>) -> Self;

    /// The little-endian encoding of `self`.
    spec fn spec_to_le(self) -> Seq<u8>;

    /// `i` widened (or truncated) to a word.
    spec fn spec_from_usize(i: usize) -> Self;

    spec fn spec_xor(self, rhs: Self) -> Self;

    spec fn spec_wrapping_add(self, rhs: Self) -> Self;

    spec fn spec_wrapping_sub(self, rhs: Self) -> Self;

    /// Circular rotation by `n` modulo the bit width.
    spec fn spec_rotate_left(self, n: u32) -> Self;

    spec fn spec_rotate_right(self, n: u32) -> Self;

    fn byte_len() -> (r: usize)
        ensures
            r as nat == Self::spec_byte_len(),
            r > 0,
    ;

    /// Reads the word stored little-endian at `bytes[at .. at + byte_len]`.
    fn from_le_bytes(bytes: &[u8], at: usize) -> (r: Self)
        requires
            at + Self::spec_byte_len() <= bytes@.len(),
        ensures
            r == Self::spec_from_le(bytes@.subrange(at as int, at + Self::spec_byte_len())),
    ;

    /// Writes the word little-endian into `data[at .. at + byte_len]`,
    /// leaving the other bytes as they were.
    fn copy_to_slice(self, data: &mut [u8], at: usize)
        requires
            at + Self::spec_byte_len() <= old(data)@.len(),
        ensures
            final(data)@ == old(data)@.subrange(0, at as int) + self.spec_to_le()
                + old(data)@.subrange(at + Self::spec_byte_len(), old(data)@.len() as int),
    ;

    fn from_usize(i: usize) -> (r: Self)
        ensures
            r == Self::spec_from_usize(i),
    ;

    fn xor(self, rhs: Self) -> (r: Self)
        ensures
            r == self.spec_xor(rhs),
    ;

    fn wrapping_add(self, rhs: Self) -> (r: Self)
        ensures
            r == self.spec_wrapping_add(rhs),
    ;

    fn wrapping_sub(self, rhs: Self) -> (r: Self)
        ensures
            r == self.spec_wrapping_sub(rhs),
    ;

    fn rotate_left(self, n: u32) -> (r: Self)
        ensures
            r == self.spec_rotate_left(n),
    ;

    fn rotate_right(self, n: u32) -> (r: Self)
        ensures
            r == self.spec_rotate_right(n),
    ;

    /// Decoding an encoded word gives the word back, and the encoding has
    /// `byte_len` bytes.
    proof fn lemma_decode_encode(w: Self)
        ensures
            Self::spec_from_le(w.spec_to_le()) == w,
            w.spec_to_le().len() == Self::spec_byte_len(),
    ;

    /// Encoding a decoded byte string of the right length gives it back.
    proof fn lemma_encode_decode(bytes: Seq<u8>)
        requires
            bytes.len() == Self::spec_byte_len(),
        ensures
            Self::spec_from_le(bytes).spec_to_le() == bytes,
    ;

    /// Xor with the same value twice is the identity.
    proof fn lemma_xor_cancel(x: Self, k: Self)
        ensures
            x.spec_xor(k).spec_xor(k) == x,
    ;

    /// Wrapping subtraction undoes wrapping addition.
    proof fn lemma_add_sub(x: Self, y: Self)
        ensures
            x.spec_wrapping_add(y).spec_wrapping_sub(y) == x,
    ;

    /// Rotating right and left by the same amount cancel, in either order.
    proof fn lemma_rotate_cancel(x: Self, n: u32)
        ensures
            x.spec_rotate_right(n).spec_rotate_left(n) == x,
            x.spec_rotate_left(n).spec_rotate_right(n) == x,
    ;
}

/// Little-endian value of four bytes.
pub open spec fn u32_from_bytes(b0: u8, b1: u8, b2: u8, b3: u8) -> u32 {
    (b0 as u32) | ((b1 as u32) << 8u32) | ((b2 as u32) << 16u32) | ((b3 as u32) << 24u32)
}

/// Byte `i` (0 the least significant) of a 32-bit word.
pub open spec fn u32_byte(w: u32, i: u32) -> u8 {
    ((w >> (8 * i)) & 0xff) as u8
}

pub open spec fn u32_rotl(x: u32, n: u32) -> u32 {
    let s = n % 32;
    if s == 0 {
        x
    } else {
        (x << s) | (x >> (32 - s) as u32)
    }
}

pub open spec fn u32_rotr(x: u32, n: u32) -> u32 {
    let s = n % 32;
    if s == 0 {
        x
    } else {
        (x >> s) | (x << (32 - s) as u32)
    }
}

impl Word for u32 {
    open spec fn spec_byte_len() -> nat {
        4
    }

    open spec fn spec_from_le(bytes: Seq<u8>) -> u32 {
        u32_from_bytes(bytes[0], bytes[1], bytes[2], bytes[3])
    }

    open spec fn spec_to_le(self) -> Seq<u8> {
        seq![u32_byte(self, 0), u32_byte(self, 1), u32_byte(self, 2), u32_byte(self, 3)]
    }

    open spec fn spec_from_usize(i: usize) -> u32 {
        i as u32
    }

    open spec fn spec_xor(self, rhs: u32) -> u32 {
        self ^ rhs
    }

    open spec fn spec_wrapping_add(self, rhs: u32) -> u32 {
        vstd::wrapping::u32_specs::wrapping_add(self, rhs)
    }

    open spec fn spec_wrapping_sub(self, rhs: u32) -> u32 {
        vstd::wrapping::u32_specs::wrapping_sub(self, rhs)
    }

    open spec fn spec_rotate_left(self, n: u32) -> u32 {
        u32_rotl(self, n)
    }

    open spec fn spec_rotate_right(self, n: u32) -> u32 {
        u32_rotr(self, n)
    }

    fn byte_len() -> (r: usize) {
        4
    }

    fn from_le_bytes(bytes: &[u8], at: usize) -> (r: u32) {
        u32_from_bytes_exec(bytes[at], bytes[at + 1], bytes[at + 2], bytes[at + 3])
    }

    fn copy_to_slice(self, data: &mut [u8], at: usize) {
        let ghost pre = data@;
        data[at] = u32_byte_exec(self, 0);
        data[at + 1] = u32_byte_exec(self, 1);
        data[at + 2] = u32_byte_exec(self, 2);
        data[at + 3] = u32_byte_exec(self, 3);
        assert(data@ =~= pre.subrange(0, at as int) + self.spec_to_le() + pre.subrange(
            at + 4,
            pre.len() as int,
        ));
    }

    fn from_usize(i: usize) -> (r: u32) {
        i as u32
    }

    fn xor(self, rhs: u32) -> (r: u32) {
        self ^ rhs
    }

    fn wrapping_add(self, rhs: u32) -> (r: u32) {
        self.wrapping_add(rhs)
    }

    fn wrapping_sub(self, rhs: u32) -> (r: u32) {
        self.wrapping_sub(rhs)
    }

    fn rotate_left(self, n: u32) -> (r: u32) {
        let s = n % 32;
        if s == 0 {
            self
        } else {
            (self << s) | (self >> (32 - s))
        }
    }

    fn rotate_right(self, n: u32) -> (r: u32) {
        let s = n % 32;
        if s == 0 {
            self
        } else {
            (self >> s) | (self << (32 - s))
        }
    }

    proof fn lemma_decode_encode(w: u32) {
        assert(u32_from_bytes(u32_byte(w, 0), u32_byte(w, 1), u32_byte(w, 2), u32_byte(w, 3))
            == w) by (bit_vector);
    }

    proof fn lemma_encode_decode(bytes: Seq<u8>) {
        let (b0, b1, b2, b3) = (bytes[0], bytes[1], bytes[2], bytes[3]);
        let w = u32_from_bytes(b0, b1, b2, b3);
        assert(u32_byte(w, 0) == b0 && u32_byte(w, 1) == b1 && u32_byte(w, 2) == b2
            && u32_byte(w, 3) == b3) by (bit_vector)
            requires
                w == u32_from_bytes(b0, b1, b2, b3),
        ;
        assert(w.spec_to_le() =~= bytes);
    }

    proof fn lemma_xor_cancel(x: u32, k: u32) {
        assert((x ^ k) ^ k == x) by (bit_vector);
    }

    proof fn lemma_add_sub(x: u32, y: u32) {
    }

    proof fn lemma_rotate_cancel(x: u32, n: u32) {
        assert(u32_rotl(u32_rotr(x, n), n) == x && u32_rotr(u32_rotl(x, n), n) == x)
            by (bit_vector);
    }
}

fn u32_from_bytes_exec(b0: u8, b1: u8, b2: u8, b3: u8) -> (r: u32)
    ensures
        r == u32_from_bytes(b0, b1, b2, b3),
{
    (b0 as u32) | ((b1 as u32) << 8u32) | ((b2 as u32) << 16u32) | ((b3 as u32) << 24u32)
}

fn u32_byte_exec(w: u32, i: u32) -> (r: u8)
    requires
        i < 4,
    ensures
        r == u32_byte(w, i),
{
    ((w >> (8 * i)) & 0xff) as u8
}

/// Little-endian value of eight bytes.
pub open spec fn u64_from_bytes(b: Seq<u8>) -> u64 {
    (b[0] as u64) | ((b[1] as u64) << 8u64) | ((b[2] as u64) << 16u64) | ((b[3] as u64) << 24u64)
        | ((b[4] as u64) << 32u64) | ((b[5] as u64) << 40u64) | ((b[6] as u64) << 48u64) | ((
    b[7] as u64) << 56u64)
}

/// Byte `i` (0 the least significant) of a 64-bit word.
pub open spec fn u64_byte(w: u64, i: u64) -> u8 {
    ((w >> (8 * i)) & 0xff) as u8
}

pub open spec fn u64_rotl(x: u64, n: u32) -> u64 {
    let s = (n % 64) as u64;
    if s == 0 {
        x
    } else {
        (x << s) | (x >> (64 - s) as u64)
    }
}

pub open spec fn u64_rotr(x: u64, n: u32) -> u64 {
    let s = (n % 64) as u64;
    if s == 0 {
        x
    } else {
        (x >> s) | (x << (64 - s) as u64)
    }
}

impl Word for u64 {
    open spec fn spec_byte_len() -> nat {
        8
    }

    open spec fn spec_from_le(bytes: Seq<u8>) -> u64 {
        u64_from_bytes(bytes)
    }

    open spec fn spec_to_le(self) -> Seq<u8> {
        seq![
            u64_byte(self, 0),
            u64_byte(self, 1),
            u64_byte(self, 2),
            u64_byte(self, 3),
            u64_byte(self, 4),
            u64_byte(self, 5),
            u64_byte(self, 6),
            u64_byte(self, 7),
        ]
    }

    open spec fn spec_from_usize(i: usize) -> u64 {
        i as u64
    }

    open spec fn spec_xor(self, rhs: u64) -> u64 {
        self ^ rhs
    }

    open spec fn spec_wrapping_add(self, rhs: u64) -> u64 {
        vstd::wrapping::u64_specs::wrapping_add(self, rhs)
    }

    open spec fn spec_wrapping_sub(self, rhs: u64) -> u64 {
        vstd::wrapping::u64_specs::wrapping_sub(self, rhs)
    }

    open spec fn spec_rotate_left(self, n: u32) -> u64 {
        u64_rotl(self, n)
    }

    open spec fn spec_rotate_right(self, n: u32) -> u64 {
        u64_rotr(self, n)
    }

    fn byte_len() -> (r: usize) {
        8
    }

    fn from_le_bytes(bytes: &[u8], at: usize) -> (r: u64) {
        let mut r: u64 = 0;
        let mut i: usize = 0;
        while i < 8
            invariant
                at + 8 <= bytes@.len(),
                i <= 8,
                r == u64_prefix(bytes@.subrange(at as int, at + 8), i as nat),
            decreases 8 - i,
        {
            let b = bytes[at + i];
            proof {
                lemma_u64_prefix_step(bytes@.subrange(at as int, at + 8), i as nat);
            }
            r = r | ((b as u64) << (8 * i as u64));
            i = i + 1;
        }
        proof {
            lemma_u64_prefix_full(bytes@.subrange(at as int, at + 8));
        }
        r
    }

    fn copy_to_slice(self, data: &mut [u8], at: usize) {
        let ghost pre = data@;
        let mut i: usize = 0;
        while i < 8
            invariant
                at + 8 <= pre.len(),
                i <= 8,
                data@.len() == pre.len(),
                at + 8 <= data.len(),
                forall|j: int| 0 <= j < at || at + i <= j < pre.len() ==> data@[j] == pre[j],
                forall|j: int| 0 <= j < i ==> #[trigger] data@[at + j] == u64_byte(self, j as u64),
            decreases 8 - i,
        {
            data[at + i] = u64_byte_exec(self, i as u64);
            i = i + 1;
        }
        assert(data@ =~= pre.subrange(0, at as int) + self.spec_to_le() + pre.subrange(
            at + 8,
            pre.len() as int,
        )) by {
            assert forall|j: int| 0 <= j < 8 implies data@[at + j] == self.spec_to_le()[j] by {
                assert(data@[at + j] == u64_byte(self, j as u64));
            }
        }
    }

    fn from_usize(i: usize) -> (r: u64) {
        i as u64
    }

    fn xor(self, rhs: u64) -> (r: u64) {
        self ^ rhs
    }

    fn wrapping_add(self, rhs: u64) -> (r: u64) {
        self.wrapping_add(rhs)
    }

    fn wrapping_sub(self, rhs: u64) -> (r: u64) {
        self.wrapping_sub(rhs)
    }

    fn rotate_left(self, n: u32) -> (r: u64) {
        let s = (n % 64) as u64;
        if s == 0 {
            self
        } else {
            (self << s) | (self >> (64 - s))
        }
    }

    fn rotate_right(self, n: u32) -> (r: u64) {
        let s = (n % 64) as u64;
        if s == 0 {
            self
        } else {
            (self >> s) | (self << (64 - s))
        }
    }

    proof fn lemma_decode_encode(w: u64) {
        let b = w.spec_to_le();
        let (b0, b1, b2, b3, b4, b5, b6, b7) = (b[0], b[1], b[2], b[3], b[4], b[5], b[6], b[7]);
        assert((b0 as u64) | ((b1 as u64) << 8u64) | ((b2 as u64) << 16u64) | ((b3 as u64)
            << 24u64) | ((b4 as u64) << 32u64) | ((b5 as u64) << 40u64) | ((b6 as u64) << 48u64)
            | ((b7 as u64) << 56u64) == w) by (bit_vector)
            requires
                b0 == u64_byte(w, 0),
                b1 == u64_byte(w, 1),
                b2 == u64_byte(w, 2),
                b3 == u64_byte(w, 3),
                b4 == u64_byte(w, 4),
                b5 == u64_byte(w, 5),
                b6 == u64_byte(w, 6),
                b7 == u64_byte(w, 7),
        ;
    }

    proof fn lemma_encode_decode(bytes: Seq<u8>) {
        let (b0, b1, b2, b3, b4, b5, b6, b7) = (
            bytes[0],
            bytes[1],
            bytes[2],
            bytes[3],
            bytes[4],
            bytes[5],
            bytes[6],
            bytes[7],
        );
        let w = u64_from_bytes(bytes);
        assert(u64_byte(w, 0) == b0 && u64_byte(w, 1) == b1 && u64_byte(w, 2) == b2 && u64_byte(
            w,
            3,
        ) == b3 && u64_byte(w, 4) == b4 && u64_byte(w, 5) == b5 && u64_byte(w, 6) == b6
            && u64_byte(w, 7) == b7) by (bit_vector)
            requires
                w == (b0 as u64) | ((b1 as u64) << 8u64) | ((b2 as u64) << 16u64) | ((b3 as u64)
                    << 24u64) | ((b4 as u64) << 32u64) | ((b5 as u64) << 40u64) | ((b6 as u64)
                    << 48u64) | ((b7 as u64) << 56u64),
        ;
        assert(w.spec_to_le() =~= bytes);
    }

    proof fn lemma_xor_cancel(x: u64, k: u64) {
        assert((x ^ k) ^ k == x) by (bit_vector);
    }

    proof fn lemma_add_sub(x: u64, y: u64) {
    }

    proof fn lemma_rotate_cancel(x: u64, n: u32) {
        let s = (n % 64) as u64;
        if s != 0 {
            assert(((x >> s) | (x << (64 - s) as u64)) << s | ((x >> s) | (x << (64 - s) as u64))
                >> (64 - s) as u64 == x) by (bit_vector)
                requires
                    0 < s < 64,
            ;
            assert(((x << s) | (x >> (64 - s) as u64)) >> s | ((x << s) | (x >> (64 - s) as u64))
                << (64 - s) as u64 == x) by (bit_vector)
                requires
                    0 < s < 64,
            ;
        }
    }
}

/// The first `n` bytes of `b` or-ed into place, little-endian.
pub open spec fn u64_prefix(b: Seq<u8>, n: nat) -> u64
    decreases n,
{
    if n == 0 {
        0
    } else {
        u64_prefix(b, (n - 1) as nat) | ((b[n - 1] as u64) << (8 * (n - 1)) as u64)
    }
}

proof fn lemma_u64_prefix_step(b: Seq<u8>, n: nat)
    requires
        n < 8,
        b.len() == 8,
    ensures
        u64_prefix(b, n + 1) == u64_prefix(b, n) | ((b[n as int] as u64) << (8 * n) as u64),
{
}

proof fn lemma_u64_prefix_full(b: Seq<u8>)
    requires
        b.len() == 8,
    ensures
        u64_prefix(b, 8) == u64_from_bytes(b),
{
    reveal_with_fuel(u64_prefix, 9);
    let (b0, b1, b2, b3, b4, b5, b6, b7) = (b[0], b[1], b[2], b[3], b[4], b[5], b[6], b[7]);
    assert(0u64 | (b0 as u64) << 0u64 == b0 as u64) by (bit_vector);
}

fn u64_byte_exec(w: u64, i: u64) -> (r: u8)
    requires
        i < 8,
    ensures
        r == u64_byte(w, i),
{
    ((w >> (8 * i)) & 0xff) as u8
}

} // verus!
