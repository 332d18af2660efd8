//! The linear feedback shift register that generates the timecode sequence.

use vstd::prelude::*;

verus! {

/// Smallest register width that the generator accepts.
pub const MIN_BITS: u32 = 1;

/// Largest register width that the generator accepts: one bit of a `u32` stays
/// free, so that `1 << bits` is the number of register states.
pub const MAX_BITS: u32 = 31;

/// The number of bits that are set in `x`.
pub open spec fn ones(x: u32) -> nat
    decreases x,
{
    if x == 0 {
        0
    } else {
        (x % 2) as nat + ones(x / 2)
    }
}

/// The XOR of all bits of `x`: 1 if an odd number of them is set, else 0.
pub open spec fn parity(x: u32) -> u32 {
    (ones(x) % 2) as u32
}

/// A register width that the generator accepts.
pub open spec fn valid_bits(bits: u32) -> bool {
    MIN_BITS <= bits <= MAX_BITS
}

/// `state` uses none but the low `bits` bits.
pub open spec fn fits(state: u32, bits: u32) -> bool {
    state < (1u32 << bits)
}

/// The register after it has moved right by one and `bit` has entered at the
/// top.
pub open spec fn shift_in_top(state: u32, bits: u32, bit: u32) -> u32 {
    (state >> 1) | (bit << ((bits - 1) as u32))
}

/// The register after it has moved left by one within its width and `bit` has
/// entered at the bottom.
pub open spec fn shift_in_bottom(state: u32, bits: u32, bit: u32) -> u32 {
    ((state << 1) & (((1u32 << bits) - 1) as u32)) | bit
}

/// The bit that enters at the top in a step forwards: the parity of the tapped
/// bits and of bit 0.
pub open spec fn feedback_forward(state: u32, taps: u32) -> u32 {
    parity(state & (taps | 1))
}

/// The bit that enters at the bottom in a step backwards: the parity of the
/// bits under the taps moved right by one and of the top bit.
pub open spec fn feedback_reverse(state: u32, bits: u32, taps: u32) -> u32 {
    parity(state & ((taps >> 1) | (1u32 << ((bits - 1) as u32))))
}

/// The register after one step forwards.
pub open spec fn forward(state: u32, bits: u32, taps: u32) -> u32 {
    shift_in_top(state, bits, feedback_forward(state, taps))
}

/// The register after one step backwards.
pub open spec fn reverse(state: u32, bits: u32, taps: u32) -> u32 {
    shift_in_bottom(state, bits, feedback_reverse(state, bits, taps))
}

/// The register after `n` steps forwards from `seed`.
pub open spec fn orbit(seed: u32, bits: u32, taps: u32, n: nat) -> u32
    decreases n,
{
    if n == 0 {
        seed
    } else {
        forward(orbit(seed, bits, taps, (n - 1) as nat), bits, taps)
    }
}

/// The bit that the sequence carries at place `n`: the bit that enters the
/// register in the step from state `n` to the next.
pub open spec fn sequence_bit(seed: u32, bits: u32, taps: u32, n: nat) -> u32 {
    feedback_forward(orbit(seed, bits, taps, n), taps)
}

/// The window after the `count` bits that the sequence carries from place
/// `from` on have entered it at the top, one after the other.
pub open spec fn fed_forwards(
    window: u32,
    seed: u32,
    bits: u32,
    taps: u32,
    from: nat,
    count: nat,
) -> u32
    decreases count,
{
    if count == 0 {
        window
    } else {
        shift_in_top(
            fed_forwards(window, seed, bits, taps, from, (count - 1) as nat),
            bits,
            sequence_bit(seed, bits, taps, (from + count - 1) as nat),
        )
    }
}

proof fn lemma_low_bit(x: u32)
    by (bit_vector)
    ensures
        x & 1 == x % 2,
        x >> 1 == x / 2,
{
}

proof fn lemma_width(bits: u32)
    by (bit_vector)
    requires
        1 <= bits <= 31,
    ensures
        (1u32 << bits) >= 2,
{
}

/// No number has more bits set than its value.
pub proof fn lemma_ones_bounded(x: u32)
    ensures
        ones(x) <= x,
    decreases x,
{
    if x != 0 {
        lemma_ones_bounded(x / 2);
    }
}

/// The feedback bit of `code` under `taps`: the parity of the tapped bits.
pub fn lfsr(code: u32, taps: u32) -> (bit: u32)
    ensures
        bit == parity(code & taps),
        bit <= 1,
{
    let mut taken: u32 = code & taps;
    let mut xrs: u32 = 0;
    while taken != 0
        invariant
            xrs + ones(taken) == ones(code & taps),
        decreases taken,
    {
        proof {
            lemma_low_bit(taken);
            lemma_ones_bounded(code & taps);
        }
        xrs += taken & 1;
        taken >>= 1;
    }
    proof {
        lemma_low_bit(xrs);
    }
    xrs & 1
}

/// Moves `window` right by one and enters `bit` at the top.
pub fn push_top(window: u32, bits: u32, bit: u32) -> (next: u32)
    requires
        valid_bits(bits),
    ensures
        next == shift_in_top(window, bits, bit),
{
    (window >> 1) | (bit << (bits - 1))
}

/// Moves `window` left by one within its width and enters `bit` at the bottom.
pub fn push_bottom(window: u32, bits: u32, bit: u32) -> (next: u32)
    requires
        valid_bits(bits),
    ensures
        next == shift_in_bottom(window, bits, bit),
{
    proof {
        lemma_width(bits);
    }
    let mask: u32 = (1u32 << bits) - 1;
    ((window << 1) & mask) | bit
}

/// One step forwards from `current`.
pub fn fwd(current: u32, bits: u32, taps: u32) -> (next: u32)
    requires
        valid_bits(bits),
    ensures
        next == forward(current, bits, taps),
{
    let l = lfsr(current, taps | 1);
    push_top(current, bits, l)
}

/// One step backwards from `current`.
pub fn rev(current: u32, bits: u32, taps: u32) -> (prev: u32)
    requires
        valid_bits(bits),
    ensures
        prev == reverse(current, bits, taps),
{
    let l = lfsr(current, (taps >> 1) | (1u32 << (bits - 1)));
    push_bottom(current, bits, l)
}

proof fn lemma_xor_bits(a: u32, b: u32)
    by (bit_vector)
    ensures
        (a ^ b) % 2 == (a % 2 + b % 2) % 2,
        (a ^ b) / 2 == (a / 2) ^ (b / 2),
        a ^ b == 0 ==> a == b,
{
}

/// The bits set in `a ^ b` are as many as those set in `a` and in `b`
/// together, up to an even number.
pub proof fn lemma_ones_xor(a: u32, b: u32)
    ensures
        ones(a ^ b) % 2 == (ones(a) + ones(b)) % 2,
    decreases a + b,
{
    lemma_xor_bits(a, b);
    if a != 0 || b != 0 {
        lemma_ones_xor(a / 2, b / 2);
    }
}

proof fn lemma_single_bits(k: u32)
    by (bit_vector)
    requires
        k < 32,
    ensures
        (1u32 << k) != 0,
        k == 0 ==> (1u32 << k) == 1,
        k > 0 ==> (1u32 << k) % 2 == 0 && (1u32 << k) / 2 == (1u32 << ((k - 1) as u32)),
{
}

/// A number with a single bit set has one bit set.
pub proof fn lemma_ones_single(k: u32)
    requires
        k < 32,
    ensures
        ones(1u32 << k) == 1,
    decreases k,
{
    lemma_single_bits(k);
    if k == 0 {
        assert(ones(1u32) == 1 + ones(0u32));
    } else {
        lemma_ones_single((k - 1) as u32);
    }
}

/// The bits set in `x` are its lowest bit and the bits set in the rest.
proof fn lemma_ones_unfold(x: u32)
    ensures
        ones(x) == (x % 2) as nat + ones(x / 2),
{
}

proof fn lemma_forward_bits(s: u32, t: u32, bits: u32, top: u32, mask: u32, l: u32)
    by (bit_vector)
    requires
        1 <= bits <= 31,
        top + 1 == bits,
        mask + 1 == (1u32 << bits),
        s < (1u32 << bits),
        l <= 1,
    ensures
        ((s >> 1) | (l << top)) < (1u32 << bits),
        ((((s >> 1) | (l << top)) << 1) & mask) | (s % 2) == s,
        ((s >> 1) | (l << top)) & ((t >> 1) | (1u32 << top)) == ((s & t) >> 1) ^ (l << top),
        (s & (t | 1)) % 2 == s % 2,
        (s & (t | 1)) / 2 == (s & t) >> 1,
        l == 0 ==> (l << top) == 0,
        l == 1 ==> (l << top) == (1u32 << top),
{
}

proof fn lemma_reverse_bits(s: u32, t: u32, bits: u32, top: u32, mask: u32, l: u32)
    by (bit_vector)
    requires
        1 <= bits <= 31,
        top + 1 == bits,
        mask + 1 == (1u32 << bits),
        s < (1u32 << bits),
        l <= 1,
    ensures
        ((((s << 1) & mask) | l) >> 1) | (((s >> top) & 1) << top) == s,
        (s >> top) & 1 <= 1,
        s & ((t >> 1) | (1u32 << top)) == ((((s << 1) & mask) | l) & (t | 1)) / 2 ^ (((s >> top)
            & 1) << top),
        ((((s << 1) & mask) | l) & (t | 1)) % 2 == l,
        (s >> top) & 1 == 0 ==> (((s >> top) & 1) << top) == 0,
        (s >> top) & 1 == 1 ==> (((s >> top) & 1) << top) == (1u32 << top),
{
}

proof fn lemma_masked_bits(s: u32, bits: u32, mask: u32, l: u32)
    by (bit_vector)
    requires
        1 <= bits <= 31,
        mask + 1 == (1u32 << bits),
        l <= 1,
    ensures
        (((s << 1) & mask) | l) < (1u32 << bits),
{
}

/// A window within the register's width stays within it when a bit enters at the
/// top; when a bit enters at the bottom it ends within the width in any case.
pub proof fn lemma_shift_fits(window: u32, bits: u32, bit: u32)
    requires
        valid_bits(bits),
        bit <= 1,
    ensures
        fits(window, bits) ==> fits(shift_in_top(window, bits, bit), bits),
        fits(shift_in_bottom(window, bits, bit), bits),
{
    let top = (bits - 1) as u32;
    let mask = ((1u32 << bits) - 1) as u32;
    lemma_width(bits);
    lemma_masked_bits(window, bits, mask, bit);
    if fits(window, bits) {
        lemma_forward_bits(window, 0, bits, top, mask, bit);
    }
}

/// A step forwards keeps the register within its width.
pub proof fn lemma_forward_fits(state: u32, bits: u32, taps: u32)
    requires
        valid_bits(bits),
        fits(state, bits),
    ensures
        fits(forward(state, bits, taps), bits),
{
    let top = (bits - 1) as u32;
    let mask = ((1u32 << bits) - 1) as u32;
    lemma_width(bits);
    lemma_forward_bits(state, taps, bits, top, mask, parity(state & (taps | 1)));
}

/// A step backwards ends within the register's width, wherever it starts.
pub proof fn lemma_reverse_fits(state: u32, bits: u32, taps: u32)
    requires
        valid_bits(bits),
    ensures
        fits(reverse(state, bits, taps), bits),
{
    let top = (bits - 1) as u32;
    let mask = ((1u32 << bits) - 1) as u32;
    lemma_width(bits);
    lemma_masked_bits(state, bits, mask, parity(state & ((taps >> 1) | (1u32 << top))));
}

/// Round trip, forwards first: for every state within the register's width and
/// every choice of taps, the step backwards undoes the step forwards.
pub proof fn lemma_reverse_undoes_forward(state: u32, bits: u32, taps: u32)
    requires
        valid_bits(bits),
        fits(state, bits),
    ensures
        reverse(forward(state, bits, taps), bits, taps) == state,
{
    let top = (bits - 1) as u32;
    let mask = ((1u32 << bits) - 1) as u32;
    let l = parity(state & (taps | 1));
    let next = forward(state, bits, taps);
    let rest = (state & taps) >> 1;
    lemma_width(bits);
    lemma_forward_bits(state, taps, bits, top, mask, l);
    // The feedback bit is the lowest bit of the state plus the parity of the rest.
    lemma_ones_unfold(state & (taps | 1));
    // Going back, the tapped bits are the same rest and the feedback bit itself.
    lemma_ones_xor(rest, l << top);
    if l == 1 {
        lemma_ones_single(top);
    }
    assert(ones(l << top) == l);
    assert(parity(next & ((taps >> 1) | (1u32 << top))) == state % 2);
}

/// Round trip, backwards first: for every state within the register's width and
/// every choice of taps, the step forwards undoes the step backwards.
pub proof fn lemma_forward_undoes_reverse(state: u32, bits: u32, taps: u32)
    requires
        valid_bits(bits),
        fits(state, bits),
    ensures
        forward(reverse(state, bits, taps), bits, taps) == state,
{
    let top = (bits - 1) as u32;
    let mask = ((1u32 << bits) - 1) as u32;
    let l = parity(state & ((taps >> 1) | (1u32 << top)));
    let prev = reverse(state, bits, taps);
    let high = (state >> top) & 1;
    let rest = (prev & (taps | 1)) / 2;
    lemma_width(bits);
    lemma_reverse_bits(state, taps, bits, top, mask, l);
    // The feedback bit is the top bit of the state plus the parity of the rest.
    lemma_ones_xor(rest, high << top);
    if high == 1 {
        lemma_ones_single(top);
    }
    assert(ones(high << top) == high);
    // Going forwards again, the tapped bits are the feedback bit and the same rest.
    lemma_ones_unfold(prev & (taps | 1));
    assert(parity(prev & (taps | 1)) == high);
}

/// Every state of a sequence that starts within the register's width stays
/// within it.
pub proof fn lemma_orbit_fits(seed: u32, bits: u32, taps: u32, n: nat)
    requires
        valid_bits(bits),
        fits(seed, bits),
    ensures
        fits(orbit(seed, bits, taps, n), bits),
    decreases n,
{
    if n > 0 {
        lemma_orbit_fits(seed, bits, taps, (n - 1) as nat);
        lemma_forward_fits(orbit(seed, bits, taps, (n - 1) as nat), bits, taps);
    }
}

/// Round trip along a sequence: at every state that is reached from a seed
/// within the register's width, each step undoes the other.
pub proof fn lemma_round_trip(seed: u32, bits: u32, taps: u32, n: nat)
    requires
        valid_bits(bits),
        fits(seed, bits),
    ensures
        reverse(forward(orbit(seed, bits, taps, n), bits, taps), bits, taps) == orbit(
            seed,
            bits,
            taps,
            n,
        ),
        forward(reverse(orbit(seed, bits, taps, n), bits, taps), bits, taps) == orbit(
            seed,
            bits,
            taps,
            n,
        ),
{
    lemma_orbit_fits(seed, bits, taps, n);
    lemma_reverse_undoes_forward(orbit(seed, bits, taps, n), bits, taps);
    lemma_forward_undoes_reverse(orbit(seed, bits, taps, n), bits, taps);
}

proof fn lemma_top_bits(x: u32, y: u32, bits: u32, top: u32, gap: u32, bit: u32)
    by (bit_vector)
    requires
        1 <= bits <= 31,
        top + 1 == bits,
        1 <= gap <= bits,
        x < (1u32 << bits),
        y < (1u32 << bits),
        x >> gap == y >> gap,
    ensures
        ((x >> 1) | (bit << top)) >> ((gap - 1) as u32) == ((y >> 1) | (bit << top)) >> ((gap
            - 1) as u32),
        gap == 1 ==> ((gap - 1) as u32) == 0 && ((x >> 1) | (bit << top)) == ((y >> 1) | (bit
            << top)),
{
}

proof fn lemma_no_top_bits(x: u32, y: u32, bits: u32)
    by (bit_vector)
    requires
        1 <= bits <= 31,
        x < (1u32 << bits),
        y < (1u32 << bits),
    ensures
        x >> bits == y >> bits,
{
}

/// Each bit of the sequence that enters a window makes one more of its top
/// bits those of the state that the sequence has reached.
proof fn lemma_window_fills(
    window: u32,
    seed: u32,
    bits: u32,
    taps: u32,
    from: nat,
    count: nat,
)
    requires
        valid_bits(bits),
        fits(seed, bits),
        fits(window, bits),
        count <= bits,
    ensures
        fits(fed_forwards(window, seed, bits, taps, from, count), bits),
        fed_forwards(window, seed, bits, taps, from, count) >> ((bits - count) as u32) == orbit(
            seed,
            bits,
            taps,
            from + count,
        ) >> ((bits - count) as u32),
    decreases count,
{
    lemma_orbit_fits(seed, bits, taps, from + count);
    if count == 0 {
        lemma_no_top_bits(window, orbit(seed, bits, taps, from), bits);
    } else {
        let before = fed_forwards(window, seed, bits, taps, from, (count - 1) as nat);
        let state = orbit(seed, bits, taps, (from + count - 1) as nat);
        let bit = sequence_bit(seed, bits, taps, (from + count - 1) as nat);
        lemma_window_fills(window, seed, bits, taps, from, (count - 1) as nat);
        lemma_orbit_fits(seed, bits, taps, (from + count - 1) as nat);
        lemma_shift_fits(before, bits, bit);
        lemma_top_bits(before, state, bits, (bits - 1) as u32, (bits - count + 1) as u32, bit);
    }
}

/// A window synchronises: once as many bits of the sequence as the register is
/// wide have entered it, it is the state that the sequence has reached,
/// whatever it held before.
pub proof fn lemma_window_synchronises(window: u32, seed: u32, bits: u32, taps: u32, from: nat)
    requires
        valid_bits(bits),
        fits(seed, bits),
        fits(window, bits),
    ensures
        fed_forwards(window, seed, bits, taps, from, bits as nat) == orbit(
            seed,
            bits,
            taps,
            from + bits as nat,
        ),
{
    let before = fed_forwards(window, seed, bits, taps, from, (bits - 1) as nat);
    let state = orbit(seed, bits, taps, (from + bits - 1) as nat);
    let bit = sequence_bit(seed, bits, taps, (from + bits - 1) as nat);
    lemma_window_fills(window, seed, bits, taps, from, (bits - 1) as nat);
    lemma_orbit_fits(seed, bits, taps, (from + bits - 1) as nat);
    lemma_top_bits(before, state, bits, (bits - 1) as u32, 1, bit);
}

/// A synchronised window follows the sequence: as further bits of the sequence
/// enter it, it stays the state that the sequence has reached.
pub proof fn lemma_window_follows(
    window: u32,
    seed: u32,
    bits: u32,
    taps: u32,
    from: nat,
    count: nat,
)
    requires
        valid_bits(bits),
        fits(seed, bits),
        fits(window, bits),
        count >= bits,
    ensures
        fed_forwards(window, seed, bits, taps, from, count) == orbit(
            seed,
            bits,
            taps,
            from + count,
        ),
    decreases count,
{
    if count == bits {
        lemma_window_synchronises(window, seed, bits, taps, from);
    } else {
        lemma_window_follows(window, seed, bits, taps, from, (count - 1) as nat);
    }
}

} // verus!
