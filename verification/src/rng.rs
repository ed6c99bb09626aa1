//! Pseudo random numbers: the xorshift generator and the narrower draws that
//! are derived from a 64-bit draw.
//!
//! A narrower draw keeps the low-order bytes of the wider one, which are the
//! first bytes of its little-endian representation (the byte order of the
//! AArch64 targets the kernel runs on).
use vstd::prelude::*;

verus! {

/// One step of the 64-bit xorshift generator with shifts 13, 7 and 17.
pub open spec fn xorshift_step(x: u64) -> u64 {
    let a = x ^ (x << 13u64);
    let b = a ^ (a >> 7u64);
    b ^ (b << 17u64)
}

/// A generator seeded with zero stays at zero: every draw is zero.
pub proof fn lemma_xorshift_zero_is_fixed()
    ensures
        xorshift_step(0) == 0,
{
    assert(xorshift_step(0) == 0) by (bit_vector);
}

/// A generator with a nonzero state never reaches the zero state.
pub proof fn lemma_xorshift_nonzero(x: u64)
    requires
        x != 0,
    ensures
        xorshift_step(x) != 0,
{
    let a = x ^ (x << 13u64);
    let b = a ^ (a >> 7u64);
    assert(x != 0 ==> x ^ (x << 13u64) != 0) by (bit_vector);
    assert(a != 0 ==> a ^ (a >> 7u64) != 0) by (bit_vector);
    assert(b != 0 ==> b ^ (b << 17u64) != 0) by (bit_vector);
}

/// One xorshift step is injective: two different states never lead to the
/// same next state, so the generator never merges two sequences.
pub proof fn lemma_xorshift_injective(x: u64, y: u64)
    requires
        xorshift_step(x) == xorshift_step(y),
    ensures
        x == y,
{
    let ax = x ^ (x << 13u64);
    let ay = y ^ (y << 13u64);
    let bx = ax ^ (ax >> 7u64);
    let by = ay ^ (ay >> 7u64);
    assert(bx ^ (bx << 17u64) == by ^ (by << 17u64) ==> bx == by) by (bit_vector);
    assert(ax ^ (ax >> 7u64) == ay ^ (ay >> 7u64) ==> ax == ay) by (bit_vector);
    assert(x ^ (x << 13u64) == y ^ (y << 13u64) ==> x == y) by (bit_vector);
}

/// The generator after `n` draws.
pub open spec fn advance_n<R: Rng>(r: R, n: nat) -> R
    decreases n,
{
    if n == 0 {
        r
    } else {
        advance_n(r, (n - 1) as nat).advanced()
    }
}

/// The value of draw number `n` (counting from 0) of a generator.
pub open spec fn nth_draw<R: Rng>(r: R, n: nat) -> u64 {
    advance_n(r, n).peek_u64()
}

/// The two's complement reading of the 64 bits of `x`.
pub open spec fn signed64(x: u64) -> int {
    if x < 0x8000_0000_0000_0000 { x as int } else { x - 0x1_0000_0000_0000_0000 }
}

/// The two's complement reading of the low 32 bits of `x`.
pub open spec fn signed32(x: u64) -> int {
    let low = x % 0x1_0000_0000;
    if low < 0x8000_0000 { low as int } else { low - 0x1_0000_0000 }
}

/// The two's complement reading of the low 16 bits of `x`.
pub open spec fn signed16(x: u64) -> int {
    let low = x % 0x1_0000;
    if low < 0x8000 { low as int } else { low - 0x1_0000 }
}

/// The two's complement reading of the low 8 bits of `x`.
pub open spec fn signed8(x: u64) -> int {
    let low = x % 0x100;
    if low < 0x80 { low as int } else { low - 0x100 }
}

/// A source of random numbers. Every draw consumes one 64-bit value: the one
/// `peek_u64` names, after which the generator is in state `advanced`.
pub trait Rng: Sized {
    /// The 64-bit value the next draw is made from.
    spec fn peek_u64(&self) -> u64;

    /// The generator after one draw.
    spec fn advanced(&self) -> Self;

    fn rand_u64(&mut self) -> (r: u64)
        ensures
            r == old(self).peek_u64(),
            *final(self) == old(self).advanced(),
    ;

    fn rand_i64(&mut self) -> (r: i64)
        ensures
            r == signed64(old(self).peek_u64()),
            *final(self) == old(self).advanced(),
    {
        let x = self.rand_u64();
        assert(x < 0x8000_0000_0000_0000 ==> x as i64 == x) by (bit_vector);
        assert(x >= 0x8000_0000_0000_0000 ==> x as i64 == x - 0x1_0000_0000_0000_0000) by (bit_vector);
        x as i64
    }

    /// The low 32 bits of a 64-bit draw.
    fn rand_u32(&mut self) -> (r: u32)
        ensures
            r == old(self).peek_u64() % 0x1_0000_0000,
            *final(self) == old(self).advanced(),
    {
        let x = self.rand_u64();
        assert(x as u32 == x % 0x1_0000_0000) by (bit_vector);
        x as u32
    }

    fn rand_i32(&mut self) -> (r: i32)
        ensures
            r == signed32(old(self).peek_u64()),
            *final(self) == old(self).advanced(),
    {
        let x = self.rand_u32();
        assert(x < 0x8000_0000 ==> x as i32 == x) by (bit_vector);
        assert(x >= 0x8000_0000 ==> x as i32 == x - 0x1_0000_0000) by (bit_vector);
        x as i32
    }

    /// The low 16 bits of a 64-bit draw.
    fn rand_u16(&mut self) -> (r: u16)
        ensures
            r == old(self).peek_u64() % 0x1_0000,
            *final(self) == old(self).advanced(),
    {
        let ghost p = old(self).peek_u64();
        let x = self.rand_u32();
        assert(x == p % 0x1_0000_0000 ==> x as u16 == p % 0x1_0000) by (bit_vector);
        x as u16
    }

    fn rand_i16(&mut self) -> (r: i16)
        ensures
            r == signed16(old(self).peek_u64()),
            *final(self) == old(self).advanced(),
    {
        let x = self.rand_u16();
        assert(x < 0x8000 ==> x as i16 == x) by (bit_vector);
        assert(x >= 0x8000 ==> x as i16 == x - 0x1_0000) by (bit_vector);
        x as i16
    }

    /// The low 8 bits of a 64-bit draw.
    fn rand_u8(&mut self) -> (r: u8)
        ensures
            r == old(self).peek_u64() % 0x100,
            *final(self) == old(self).advanced(),
    {
        let ghost p = old(self).peek_u64();
        let x = self.rand_u16();
        assert(x == p % 0x1_0000 ==> x as u8 == p % 0x100) by (bit_vector);
        x as u8
    }

    fn rand_i8(&mut self) -> (r: i8)
        ensures
            r == signed8(old(self).peek_u64()),
            *final(self) == old(self).advanced(),
    {
        let x = self.rand_u8();
        assert(x < 0x80 ==> x as i8 == x) by (bit_vector);
        assert(x >= 0x80 ==> x as i8 == x - 0x100) by (bit_vector);
        x as i8
    }
}

/// The xorshift generator. Its state is the last value it produced (or the
/// seed before the first draw).
#[derive(Clone, Copy)]
pub struct XORShiftRng {
    state: u64,
}

impl View for XORShiftRng {
    type V = u64;

    closed spec fn view(&self) -> u64 {
        self.state
    }
}

impl XORShiftRng {
    /// The generator whose state is `state`.
    pub closed spec fn with_state(state: u64) -> XORShiftRng {
        XORShiftRng { state }
    }

    pub broadcast proof fn lemma_with_state_view(state: u64)
        ensures
            #[trigger] Self::with_state(state)@ == state,
    {
    }

    pub fn new(seed: u64) -> (r: XORShiftRng)
        ensures
            r@ == seed,
    {
        XORShiftRng { state: seed }
    }
}

impl Rng for XORShiftRng {
    open spec fn peek_u64(&self) -> u64 {
        xorshift_step(self@)
    }

    open spec fn advanced(&self) -> Self {
        XORShiftRng::with_state(xorshift_step(self@))
    }

    fn rand_u64(&mut self) -> (r: u64) {
        proof {
            XORShiftRng::lemma_with_state_view(xorshift_step(self@));
        }
        let mut x = self.state;
        x ^= x << 13u64;
        x ^= x >> 7u64;
        x ^= x << 17u64;
        self.state = x;
        x
    }
}

} // verus!
