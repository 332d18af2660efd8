//! A timecode definition: the parameters of a sequence together with its
//! lookup table.

use vstd::prelude::*;
use crate::error::XwaxError;
use crate::lfsr::{
    fits, forward, fwd, lemma_reverse_fits, lemma_round_trip, orbit, rev, reverse, valid_bits, MAX_BITS, MIN_BITS,
};
use crate::lut::{position_of, Lut, MAX_SLOTS};

verus! {

/// How the incoming signal is read. None of these changes the sequence.
#[derive(Debug, Clone, Copy, PartialEq, Eq, Structural)]
pub struct Flags {
    /// The two channels are 270 degrees apart instead of 90.
    pub phase: bool,
    /// The left channel, not the right, carries the bits.
    pub primary: bool,
    /// Bits are read on the negative half of the wave, not the positive.
    pub polarity: bool,
}

impl Flags {
    /// The three flags as one number: phase is bit 0, primary bit 1, polarity
    /// bit 2.
    pub open spec fn mask_value(self) -> int {
        (if self.phase { 1int } else { 0 }) + (if self.primary { 2int } else { 0 }) + (if self.polarity {
            4int
        } else {
            0
        })
    }

    /// The three flags as one number.
    pub fn mask(&self) -> (m: u32)
        ensures
            m == self.mask_value(),
    {
        let mut m: u32 = 0;
        if self.phase {
            m += 1;
        }
        if self.primary {
            m += 2;
        }
        if self.polarity {
            m += 4;
        }
        m
    }
}

/// Step `n` of the sequence comes back to a state of an earlier step.
pub open spec fn repeats_at(seed: u32, bits: u32, taps: u32, n: nat) -> bool {
    exists|j: nat| j < n && #[trigger] orbit(seed, bits, taps, j) == orbit(seed, bits, taps, n)
}

/// At step `n` of the sequence, the step backwards does not undo the step
/// forwards.
pub open spec fn asymmetric_at(seed: u32, bits: u32, taps: u32, n: nat) -> bool {
    reverse(forward(orbit(seed, bits, taps, n), bits, taps), bits, taps) != orbit(
        seed,
        bits,
        taps,
        n,
    )
}

/// Step `n` of the sequence has one of the two faults.
pub open spec fn faulty_at(seed: u32, bits: u32, taps: u32, n: nat) -> bool {
    repeats_at(seed, bits, taps, n) || asymmetric_at(seed, bits, taps, n)
}

/// None of the first `n` steps of the sequence has a fault.
pub open spec fn sound_before(seed: u32, bits: u32, taps: u32, n: nat) -> bool {
    forall|i: nat| i < n ==> !#[trigger] faulty_at(seed, bits, taps, i)
}

/// A table can be set up for a register of `bits` bits and a sequence of
/// `length` states.
pub open spec fn table_fits(bits: u32, length: u32) -> bool {
    valid_bits(bits) && length <= MAX_SLOTS
}

/// What a definition holds.
pub struct DefinitionView {
    /// Width of the register in bits.
    pub bits: u32,
    /// Cycles of the carrier per second at nominal speed; each carries one bit.
    pub resolution: i32,
    /// The first state of the sequence.
    pub seed: u32,
    /// The bits of the register that feed back.
    pub taps: u32,
    /// Number of states in the sequence.
    pub length: u32,
    /// The last place of the sequence that is safe to use.
    pub safe: u32,
    /// How the signal is read.
    pub flags: Flags,
    /// The states of the sequence, each at its place.
    pub table: Seq<u32>,
}

impl DefinitionView {
    /// The table holds the first `length` states of the sequence, and none of
    /// these steps has a fault.
    pub open spec fn sound(self) -> bool {
        &&& table_fits(self.bits, self.length)
        &&& self.table.len() == self.length
        &&& forall|i: int|
            0 <= i < self.length ==> #[trigger] self.table[i] == orbit(
                self.seed,
                self.bits,
                self.taps,
                i as nat,
            )
        &&& sound_before(self.seed, self.bits, self.taps, self.length as nat)
    }
}

/// A timecode definition. Once built it never changes but for its flags.
pub struct TimecoderDef {
    bits: u32,
    resolution: i32,
    seed: u32,
    taps: u32,
    length: u32,
    safe: u32,
    flags: Flags,
    lut: Lut,
}

impl View for TimecoderDef {
    type V = DefinitionView;

    closed spec fn view(&self) -> DefinitionView {
        DefinitionView {
            bits: self.bits,
            resolution: self.resolution,
            seed: self.seed,
            taps: self.taps,
            length: self.length,
            safe: self.safe,
            flags: self.flags,
            table: self.lut@,
        }
    }
}

impl TimecoderDef {
    /// The lookup table is intact.
    pub closed spec fn table_intact(&self) -> bool {
        self.lut.wf()
    }

    /// The definition is valid: its table is intact and holds its sequence.
    pub open spec fn wf(&self) -> bool {
        self.table_intact() && self@.sound()
    }

    /// Builds the definition of the sequence of `length` states that starts at
    /// `seed`, with its lookup table.
    ///
    /// The steps are checked in order. A step fails with `LUTWrapError` if its
    /// state was seen before, else with `LUTSymmetryError` if stepping forwards
    /// and then backwards does not lead back to its state. `LUTInitError` is for
    /// a register width outside `MIN_BITS..=MAX_BITS` and for a length above
    /// `MAX_SLOTS`.
    pub fn new(bits: u32, resolution: i32, seed: u32, taps: u32, length: u32, safe: u32) -> (made:
        Result<TimecoderDef, XwaxError>)
        ensures
            made is Ok <==> table_fits(bits, length) && sound_before(seed, bits, taps, length as nat),
            made == Err::<TimecoderDef, XwaxError>(XwaxError::LUTInitError) <==> !table_fits(
                bits,
                length,
            ),
            made == Err::<TimecoderDef, XwaxError>(XwaxError::LUTWrapError) <==> table_fits(
                bits,
                length,
            ) && exists|n: nat|
                n < length && sound_before(seed, bits, taps, n) && #[trigger] repeats_at(
                    seed,
                    bits,
                    taps,
                    n,
                ),
            made == Err::<TimecoderDef, XwaxError>(XwaxError::LUTSymmetryError) <==> table_fits(
                bits,
                length,
            ) && exists|n: nat|
                n < length && sound_before(seed, bits, taps, n) && !repeats_at(seed, bits, taps, n)
                    && #[trigger] asymmetric_at(seed, bits, taps, n),
            made != Err::<TimecoderDef, XwaxError>(XwaxError::SampleCountError),
            made matches Ok(def) ==> def.wf() && def@ == (DefinitionView {
                bits,
                resolution,
                seed,
                taps,
                length,
                safe,
                flags: Flags { phase: false, primary: false, polarity: false },
                table: Seq::new(length as nat, |i: int| orbit(seed, bits, taps, i as nat)),
            }),
    {
        if bits < MIN_BITS || bits > MAX_BITS || length > MAX_SLOTS {
            return Err(XwaxError::LUTInitError);
        }
        let mut lut = Lut::new();
        let mut current: u32 = seed;
        let mut n: u32 = 0;
        while n < length
            invariant
                table_fits(bits, length),
                n <= length,
                lut.wf(),
                lut@.len() == n,
                forall|i: int| 0 <= i < n ==> #[trigger] lut@[i] == orbit(seed, bits, taps, i as nat),
                current == orbit(seed, bits, taps, n as nat),
                sound_before(seed, bits, taps, n as nat),
            decreases length - n,
        {
            let seen = lut.lookup(current);
            if seen.is_some() {
                proof {
                    let j = seen.unwrap() as nat;
                    assert(orbit(seed, bits, taps, j) == orbit(seed, bits, taps, n as nat));
                    assert(repeats_at(seed, bits, taps, n as nat));
                    lemma_first_fault(seed, bits, taps, n as nat, length as nat);
                }
                return Err(XwaxError::LUTWrapError);
            }
            proof {
                assert(!repeats_at(seed, bits, taps, n as nat)) by {
                    if repeats_at(seed, bits, taps, n as nat) {
                        let j = choose|j: nat|
                            j < n && #[trigger] orbit(seed, bits, taps, j) == orbit(
                                seed,
                                bits,
                                taps,
                                n as nat,
                            );
                        assert(lut@[j as int] == current);
                    }
                }
            }
            lut.push(current);
            let next = fwd(current, bits, taps);
            if rev(next, bits, taps) != current {
                proof {
                    assert(asymmetric_at(seed, bits, taps, n as nat));
                    lemma_first_fault(seed, bits, taps, n as nat, length as nat);
                }
                return Err(XwaxError::LUTSymmetryError);
            }
            proof {
                assert(!faulty_at(seed, bits, taps, n as nat));
            }
            current = next;
            n += 1;
        }
        proof {
            assert(lut@ =~= Seq::new(length as nat, |i: int| orbit(seed, bits, taps, i as nat)));
            lemma_no_fault(seed, bits, taps, length as nat);
        }
        Ok(
            TimecoderDef {
                bits,
                resolution,
                seed,
                taps,
                length,
                safe,
                flags: Flags { phase: false, primary: false, polarity: false },
                lut,
            },
        )
    }

    /// The place of `state` in the sequence, or `None` if the sequence does not
    /// hold it: every state of the sequence is found at its own place, and
    /// nothing else is found.
    pub fn lookup(&self, state: u32) -> (at: Option<u32>)
        requires
            self.wf(),
        ensures
            position_of(self@.table, state, at),
            at matches Some(i) ==> i < self@.length && state == orbit(
                self@.seed,
                self@.bits,
                self@.taps,
                i as nat,
            ),
            forall|i: nat|
                i < self@.length && #[trigger] orbit(self@.seed, self@.bits, self@.taps, i)
                    == state ==> at == Some(i as u32),
    {
        let at = self.lut.lookup(state);
        proof {
            assert forall|i: nat|
                i < self@.length && #[trigger] orbit(self@.seed, self@.bits, self@.taps, i)
                    == state implies at == Some(i as u32) by {
                lemma_lookup_finds_place(self@, i, at);
            }
        }
        at
    }

    /// The same definition for a signal whose channels are 270 degrees apart.
    pub fn switch_phase(self) -> (def: TimecoderDef)
        ensures
            def@ == (DefinitionView { flags: Flags { phase: true, ..self@.flags }, ..self@ }),
            self.wf() ==> def.wf(),
    {
        TimecoderDef { flags: Flags { phase: true, ..self.flags }, ..self }
    }

    /// The same definition for a signal that carries its bits on the left
    /// channel.
    pub fn switch_primary(self) -> (def: TimecoderDef)
        ensures
            def@ == (DefinitionView { flags: Flags { primary: true, ..self@.flags }, ..self@ }),
            self.wf() ==> def.wf(),
    {
        TimecoderDef { flags: Flags { primary: true, ..self.flags }, ..self }
    }

    /// The same definition for a signal that carries its bits on the negative
    /// half of the wave.
    pub fn switch_polarity(self) -> (def: TimecoderDef)
        ensures
            def@ == (DefinitionView { flags: Flags { polarity: true, ..self@.flags }, ..self@ }),
            self.wf() ==> def.wf(),
    {
        TimecoderDef { flags: Flags { polarity: true, ..self.flags }, ..self }
    }

    /// Width of the register in bits.
    pub fn bits(&self) -> (bits: u32)
        ensures
            bits == self@.bits,
    {
        self.bits
    }

    /// Cycles of the carrier per second at nominal speed.
    pub fn resolution(&self) -> (resolution: i32)
        ensures
            resolution == self@.resolution,
    {
        self.resolution
    }

    /// The first state of the sequence.
    pub fn seed(&self) -> (seed: u32)
        ensures
            seed == self@.seed,
    {
        self.seed
    }

    /// The bits of the register that feed back.
    pub fn taps(&self) -> (taps: u32)
        ensures
            taps == self@.taps,
    {
        self.taps
    }

    /// Number of states in the sequence.
    pub fn length(&self) -> (length: u32)
        ensures
            length == self@.length,
    {
        self.length
    }

    /// The last place of the sequence that is safe to use.
    pub fn safe(&self) -> (safe: u32)
        ensures
            safe == self@.safe,
    {
        self.safe
    }

    /// How the signal is read.
    pub fn flags(&self) -> (flags: Flags)
        ensures
            flags == self@.flags,
    {
        self.flags
    }
}

/// In a sound definition every state of the sequence is found at its own place:
/// the place at which a lookup finds state `i` of the sequence is `i`.
pub proof fn lemma_lookup_finds_place(def: DefinitionView, i: nat, at: Option<u32>)
    requires
        def.sound(),
        i < def.length,
        position_of(def.table, orbit(def.seed, def.bits, def.taps, i), at),
    ensures
        at == Some(i as u32),
{
    assert(def.table[i as int] == orbit(def.seed, def.bits, def.taps, i));
    let k = at.unwrap() as nat;
    if k > i {
        assert(def.table[k as int] == orbit(def.seed, def.bits, def.taps, k));
        assert(repeats_at(def.seed, def.bits, def.taps, k));
        assert(!faulty_at(def.seed, def.bits, def.taps, k));
    }
}

/// In a sound definition a lookup finds nothing but states of the sequence: a
/// state found at place `i` is state `i` of the sequence.
pub proof fn lemma_lookup_finds_state(def: DefinitionView, state: u32, i: u32)
    requires
        def.sound(),
        position_of(def.table, state, Some(i)),
    ensures
        i < def.length,
        state == orbit(def.seed, def.bits, def.taps, i as nat),
{
}

/// A sequence that starts within the register's width has no step at which the
/// step backwards fails to undo the step forwards, whatever the taps.
pub proof fn lemma_symmetric(seed: u32, bits: u32, taps: u32, n: nat)
    requires
        valid_bits(bits),
        fits(seed, bits),
    ensures
        !asymmetric_at(seed, bits, taps, n),
{
    lemma_round_trip(seed, bits, taps, n);
}

/// A sequence is sound up to its length if it starts within the register's
/// width and none of its first `length` states occurs twice. Such a definition
/// can be built.
pub proof fn lemma_maximal_is_sound(seed: u32, bits: u32, taps: u32, length: nat)
    requires
        valid_bits(bits),
        fits(seed, bits),
        forall|i: nat, j: nat|
            i < j < length ==> #[trigger] orbit(seed, bits, taps, i) != #[trigger] orbit(
                seed,
                bits,
                taps,
                j,
            ),
    ensures
        sound_before(seed, bits, taps, length),
{
    assert forall|n: nat| n < length implies !#[trigger] faulty_at(seed, bits, taps, n) by {
        lemma_symmetric(seed, bits, taps, n);
    }
}

/// A sequence of at least one state that starts outside the register's width
/// is not sound: its first step is asymmetric.
pub proof fn lemma_wide_seed_is_asymmetric(seed: u32, bits: u32, taps: u32)
    requires
        valid_bits(bits),
        !fits(seed, bits),
    ensures
        !repeats_at(seed, bits, taps, 0),
        asymmetric_at(seed, bits, taps, 0),
{
    lemma_reverse_fits(forward(seed, bits, taps), bits, taps);
}

/// The seed of a sound definition of at least one state lies within the
/// register's width.
pub proof fn lemma_sound_seed_fits(def: DefinitionView)
    requires
        def.sound(),
        def.length > 0,
    ensures
        fits(def.seed, def.bits),
{
    if !fits(def.seed, def.bits) {
        lemma_wide_seed_is_asymmetric(def.seed, def.bits, def.taps);
        assert(faulty_at(def.seed, def.bits, def.taps, 0));
    }
}

/// A sequence has at most one first fault: if step `n` is faulty and no step
/// before it is, then no other step is the first faulty one, and no stretch of
/// steps that reaches beyond `n` is sound.
proof fn lemma_first_fault(seed: u32, bits: u32, taps: u32, n: nat, length: nat)
    requires
        n < length,
        sound_before(seed, bits, taps, n),
        faulty_at(seed, bits, taps, n),
    ensures
        !sound_before(seed, bits, taps, length),
        forall|m: nat|
            sound_before(seed, bits, taps, m) && #[trigger] repeats_at(seed, bits, taps, m) ==> m
                == n,
        forall|m: nat|
            sound_before(seed, bits, taps, m) && #[trigger] asymmetric_at(seed, bits, taps, m)
                ==> m == n,
{
    assert forall|m: nat|
        sound_before(seed, bits, taps, m) && (repeats_at(seed, bits, taps, m) || asymmetric_at(
            seed,
            bits,
            taps,
            m,
        )) implies m == n by {
        if m < n {
            assert(!faulty_at(seed, bits, taps, m));
        } else if n < m {
            assert(!faulty_at(seed, bits, taps, n));
        }
    }
}

/// Where the first `length` steps are sound, none of them has either fault.
proof fn lemma_no_fault(seed: u32, bits: u32, taps: u32, length: nat)
    requires
        sound_before(seed, bits, taps, length),
    ensures
        forall|m: nat| m < length ==> !#[trigger] repeats_at(seed, bits, taps, m),
        forall|m: nat| m < length ==> !#[trigger] asymmetric_at(seed, bits, taps, m),
{
    assert forall|m: nat| m < length implies !repeats_at(seed, bits, taps, m) && !asymmetric_at(
        seed,
        bits,
        taps,
        m,
    ) by {
        assert(!faulty_at(seed, bits, taps, m));
    }
}

} // verus!
