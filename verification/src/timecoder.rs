//! The decoder: from stereo samples to the position and speed of the platter.
//!
//! The two channels of a timecode signal carry the same wave a quarter of a
//! cycle apart. Which of them leads tells the direction of the platter, and
//! the height of the wave of the primary channel, taken when the secondary
//! channel crosses zero, tells one bit per cycle. The bits fill a window as
//! wide as the register of the sequence; once enough bits in a row have been
//! what the sequence predicts, the place of the window in the sequence is the
//! position of the platter.
//!
//! A crossing is detected with hysteresis: a channel counts as positive once a
//! sample lies above the threshold and as negative once one lies below the
//! negated threshold. Samples between the two change nothing, so noise that
//! stays within the threshold never makes a bit, whatever its shape.

use vstd::prelude::*;
use crate::definition::{
    faulty_at, lemma_sound_seed_fits, repeats_at, DefinitionView, TimecoderDef,
};
use crate::error::XwaxError;
use crate::lfsr::{
    fed_forwards, feedback_forward, feedback_reverse, fits, forward, fwd, lemma_orbit_fits,
    lemma_reverse_undoes_forward, lemma_shift_fits, lemma_window_follows, orbit, push_bottom,
    push_top, rev, reverse, sequence_bit, shift_in_bottom, shift_in_top, valid_bits,
};
use crate::lut::position_of;
use crate::pitch::{
    admissible_window, lemma_slide_admissible, lemma_totals_bounded, net_of, slide, span_of,
    Intervals, Pitch, MAX_SPAN,
};

verus! {

/// Threshold of the crossing detector for a signal at line level, in sample
/// steps.
pub const LINE_THRESHOLD: i32 = 128;

/// Threshold of the crossing detector for a signal at phono level, about 30 dB
/// below line level.
pub const PHONO_THRESHOLD: i32 = 4;

/// A position is reported once more than this many bits in a row were what the
/// sequence predicts.
pub const VALID_BITS: u32 = 24;

/// The reference level follows the peaks with a weight of one in this many.
pub const REF_PEAKS_AVG: u32 = 48;

/// Peaks and the reference level are kept in units of one in this many of a
/// sample step, so that the running average keeps small changes.
pub const PEAK_SCALE: u32 = 32768;

/// The highest peak that a sample can make.
pub const PEAK_MAX: u32 = 0x4000_0000;

/// Nanoseconds in a second.
pub const NANOS_PER_SEC: u64 = 1_000_000_000;

/// A span of time: whole seconds and the nanoseconds beyond them.
#[derive(Debug, Clone, Copy, PartialEq, Eq, Structural)]
pub struct Elapsed {
    /// Whole seconds.
    pub secs: u64,
    /// Nanoseconds beyond the whole seconds, below one second.
    pub nanos: u32,
}

/// A position of the platter.
#[derive(Debug, Clone, Copy, PartialEq, Eq, Structural)]
pub struct Postition {
    /// The place in the sequence, in cycles from its start.
    pub position: i32,
    /// The time since the bit was read that gave this place.
    pub elapsed: Elapsed,
}

/// A counter that stops at its largest value.
pub open spec fn tick(count: u32) -> u32 {
    if count < u32::MAX {
        (count + 1) as u32
    } else {
        count
    }
}

/// The side of zero that a channel is on after the sample `v`: it changes only
/// when the sample lies beyond the threshold on the other side.
pub open spec fn side_after(positive: bool, v: i16, threshold: i32) -> bool {
    if v > threshold && !positive {
        true
    } else if v < -threshold && positive {
        false
    } else {
        positive
    }
}

/// The height of the sample `v` above or below zero, in units of the reference
/// level.
pub open spec fn peak_of(v: i16) -> u32 {
    (if v < 0 {
        -v * PEAK_SCALE
    } else {
        v * PEAK_SCALE
    }) as u32
}

/// The reference level after a peak: it moves towards the peak by one part in
/// `REF_PEAKS_AVG`.
pub open spec fn level_after(level: u32, peak: u32) -> u32 {
    (level - level / REF_PEAKS_AVG + peak / REF_PEAKS_AVG) as u32
}

/// The time that `ticks` samples take at `rate` samples per second.
pub open spec fn elapsed_of(ticks: u32, rate: u32) -> Elapsed {
    Elapsed {
        secs: (ticks / rate) as u64,
        nanos: (((ticks % rate) * NANOS_PER_SEC) / (rate as int)) as u32,
    }
}

/// `state` occurs in `table`.
pub open spec fn found(table: Seq<u32>, state: u32) -> bool {
    exists|i: int| 0 <= i < table.len() && #[trigger] table[i] == state
}

/// What a decoder holds.
pub struct TimecoderView {
    /// The definition that the decoder reads by.
    pub def: DefinitionView,
    /// Samples per second of the signal.
    pub sample_rate: u32,
    /// Threshold of the crossing detector.
    pub threshold: i32,
    /// The platter moves forwards.
    pub forwards: bool,
    /// The primary channel is on the positive side.
    pub primary_positive: bool,
    /// The secondary channel is on the positive side.
    pub secondary_positive: bool,
    /// The level above which a peak is a one.
    pub ref_level: u32,
    /// The window of the last bits, in the order of the record.
    pub bitstream: u32,
    /// Bits in a row that were what the sequence predicts.
    pub valid_counter: u32,
    /// Samples since the last bit was read.
    pub timecode_ticker: u32,
    /// Samples since the last transition.
    pub crossing_ticker: u32,
    /// The last intervals between transitions, oldest first.
    pub intervals: Seq<int>,
}

impl TimecoderView {
    /// The decoder before its first sample.
    pub open spec fn initial(def: DefinitionView, sample_rate: u32, phono: bool) -> TimecoderView {
        TimecoderView {
            def,
            sample_rate,
            threshold: if phono {
                PHONO_THRESHOLD
            } else {
                LINE_THRESHOLD
            },
            forwards: true,
            primary_positive: false,
            secondary_positive: false,
            ref_level: PEAK_MAX,
            bitstream: 0,
            valid_counter: 0,
            timecode_ticker: 0,
            crossing_ticker: 0,
            intervals: Seq::empty(),
        }
    }

    /// What holds of a decoder at all times.
    pub open spec fn valid(self) -> bool {
        &&& self.def.sound()
        &&& self.threshold == LINE_THRESHOLD || self.threshold == PHONO_THRESHOLD
        &&& self.ref_level <= PEAK_MAX
        &&& fits(self.bitstream, self.def.bits)
        &&& admissible_window(self.intervals)
    }

    /// The sample of the channel that carries the bits.
    pub open spec fn primary_of(self, left: i16, right: i16) -> i16 {
        if self.def.flags.primary {
            left
        } else {
            right
        }
    }

    /// The sample of the other channel.
    pub open spec fn secondary_of(self, left: i16, right: i16) -> i16 {
        if self.def.flags.primary {
            right
        } else {
            left
        }
    }

    /// The decoder after a bit was read from a peak, with the platter moving
    /// in direction `forwards`: the bit enters the window at the end that the
    /// direction gives, and it counts as valid if the window is then the state
    /// that follows the old window in the sequence.
    pub open spec fn read_bit(self, forwards: bool, peak: u32) -> TimecoderView {
        let bit: u32 = if peak > self.ref_level {
            1
        } else {
            0
        };
        let window = if forwards {
            shift_in_top(self.bitstream, self.def.bits, bit)
        } else {
            shift_in_bottom(self.bitstream, self.def.bits, bit)
        };
        let predicted = if forwards {
            forward(self.bitstream, self.def.bits, self.def.taps)
        } else {
            reverse(self.bitstream, self.def.bits, self.def.taps)
        };
        TimecoderView {
            bitstream: window,
            valid_counter: if window == predicted {
                tick(self.valid_counter)
            } else {
                0
            },
            timecode_ticker: 0,
            ref_level: level_after(self.ref_level, peak),
            ..self
        }
    }

    /// The decoder after one frame of samples. A frame in which either channel
    /// changes sides is a transition: it ends an interval, which is counted
    /// from the transition before it, or from the start of the decoder, and
    /// it sets the direction by which of the channels leads. A frame in which
    /// the secondary channel changes sides while the primary channel is on the
    /// side that carries the bits reads a bit from the height of the primary
    /// sample.
    pub open spec fn step(self, left: i16, right: i16) -> TimecoderView {
        let primary = self.primary_of(left, right);
        let secondary = self.secondary_of(left, right);
        let primary_positive = side_after(self.primary_positive, primary, self.threshold);
        let secondary_positive = side_after(self.secondary_positive, secondary, self.threshold);
        let primary_swapped = primary_positive != self.primary_positive;
        let secondary_swapped = secondary_positive != self.secondary_positive;
        let moved = primary_swapped || secondary_swapped;
        let leads = if primary_swapped {
            primary_positive != secondary_positive
        } else {
            primary_positive == secondary_positive
        };
        let forwards = if moved {
            leads != self.def.flags.phase
        } else {
            self.forwards
        };
        let span = tick(self.crossing_ticker) as int;
        let sensed = TimecoderView {
            forwards,
            primary_positive,
            secondary_positive,
            valid_counter: if forwards != self.forwards {
                0
            } else {
                self.valid_counter
            },
            crossing_ticker: if moved {
                0
            } else {
                tick(self.crossing_ticker)
            },
            intervals: if moved {
                slide(
                    self.intervals,
                    if forwards {
                        span
                    } else {
                        -span
                    },
                )
            } else {
                self.intervals
            },
            timecode_ticker: tick(self.timecode_ticker),
            ..self
        };
        if secondary_swapped && primary_positive != self.def.flags.polarity {
            sensed.read_bit(forwards, peak_of(primary))
        } else {
            sensed
        }
    }

    /// The decoder after a block of interleaved samples, left before right. A
    /// sample without its partner at the end is left out.
    pub open spec fn run(self, samples: Seq<i16>) -> TimecoderView
        decreases samples.len(),
    {
        if samples.len() < 2 {
            self
        } else {
            let n = samples.len() - samples.len() % 2;
            self.run(samples.take(n - 2)).step(samples[n - 2], samples[n - 1])
        }
    }

    /// The decoder after a bit was read from each of `peaks`, one after the
    /// other, with the platter moving in direction `forwards`.
    pub open spec fn read_bits(self, forwards: bool, peaks: Seq<u32>) -> TimecoderView
        decreases peaks.len(),
    {
        if peaks.len() == 0 {
            self
        } else {
            self.read_bits(forwards, peaks.drop_last()).read_bit(forwards, peaks.last())
        }
    }

    /// Enough bits in a row were what the sequence predicts.
    pub open spec fn locked(self) -> bool {
        self.valid_counter > VALID_BITS
    }

    /// The last bit was read less than a second ago. At a sample rate of zero
    /// no bit is fresh.
    pub open spec fn fresh(self) -> bool {
        self.timecode_ticker < self.sample_rate
    }

    /// Transitions were seen, and the definition has a nominal speed to hold
    /// them against.
    pub open spec fn moving(self) -> bool {
        self.intervals.len() > 0 && self.def.resolution > 0
    }

    /// The speed of the platter as a fraction of the nominal speed.
    pub open spec fn pitch(self) -> Pitch {
        if self.moving() {
            Pitch {
                num: (net_of(self.intervals) * self.sample_rate) as i64,
                den: (4 * self.def.resolution * span_of(self.intervals)) as u128,
            }
        } else {
            Pitch { num: 0, den: 1 }
        }
    }

    /// The decoder knows its position: it is locked, its last bit is fresh and
    /// its window is a state of the sequence.
    pub open spec fn has_position(self) -> bool {
        self.locked() && self.fresh() && found(self.def.table, self.bitstream)
    }
}

/// A decoder for one deck. It reads by a definition that it shares with others
/// and does not change.
pub struct Timecoder<'a> {
    def: &'a TimecoderDef,
    sample_rate: u32,
    threshold: i32,
    forwards: bool,
    primary_positive: bool,
    secondary_positive: bool,
    ref_level: u32,
    bitstream: u32,
    valid_counter: u32,
    timecode_ticker: u32,
    crossing_ticker: u32,
    intervals: Intervals,
}

impl<'a> View for Timecoder<'a> {
    type V = TimecoderView;

    closed spec fn view(&self) -> TimecoderView {
        TimecoderView {
            def: self.def@,
            sample_rate: self.sample_rate,
            threshold: self.threshold,
            forwards: self.forwards,
            primary_positive: self.primary_positive,
            secondary_positive: self.secondary_positive,
            ref_level: self.ref_level,
            bitstream: self.bitstream,
            valid_counter: self.valid_counter,
            timecode_ticker: self.timecode_ticker,
            crossing_ticker: self.crossing_ticker,
            intervals: self.intervals@,
        }
    }
}

/// The side of zero that a channel is on after the sample `v`.
fn detect(positive: bool, v: i16, threshold: i32) -> (side: bool)
    requires
        0 < threshold <= LINE_THRESHOLD,
    ensures
        side == side_after(positive, v, threshold),
{
    if (v as i32) > threshold && !positive {
        true
    } else if (v as i32) < -threshold && positive {
        false
    } else {
        positive
    }
}

/// The height of the sample `v` above or below zero.
fn peak(v: i16) -> (height: u32)
    ensures
        height == peak_of(v),
        height <= PEAK_MAX,
{
    let wide: i32 = v as i32;
    let size: u32 = if wide < 0 {
        (-wide) as u32
    } else {
        wide as u32
    };
    size * PEAK_SCALE
}

/// A counter that stops at its largest value.
fn count_up(count: u32) -> (next: u32)
    ensures
        next == tick(count),
{
    if count < u32::MAX {
        count + 1
    } else {
        count
    }
}

impl<'a> Timecoder<'a> {
    /// The tables that the decoder works on are intact.
    pub closed spec fn tables_intact(&self) -> bool {
        self.def.table_intact() && self.intervals.ring_intact()
    }

    /// The decoder is valid.
    pub open spec fn wf(&self) -> bool {
        self.tables_intact() && self@.valid()
    }

    /// A decoder that reads by `def` a signal of `sample_rate` samples per
    /// second. With `phono` the signal is taken to come at phono level and the
    /// threshold of the crossing detector is lowered to match.
    pub fn init(def: &'a TimecoderDef, sample_rate: u32, phono: bool) -> (tc: Timecoder<'a>)
        requires
            def.wf(),
        ensures
            tc.wf(),
            tc@ == TimecoderView::initial(def@, sample_rate, phono),
    {
        proof {
            assert(fits(0u32, def@.bits)) by {
                let bits = def@.bits;
                assert(0u32 < (1u32 << bits)) by (bit_vector)
                    requires
                        1 <= bits <= 31,
                ;
            }
        }
        Timecoder {
            def,
            sample_rate,
            threshold: if phono {
                PHONO_THRESHOLD
            } else {
                LINE_THRESHOLD
            },
            forwards: true,
            primary_positive: false,
            secondary_positive: false,
            ref_level: PEAK_MAX,
            bitstream: 0,
            valid_counter: 0,
            timecode_ticker: 0,
            crossing_ticker: 0,
            intervals: Intervals::new(),
        }
    }

    /// Reads a bit from a peak of the primary channel.
    fn process_bit(&mut self, height: u32)
        requires
            old(self).wf(),
            height <= PEAK_MAX,
        ensures
            final(self).wf(),
            final(self)@ == old(self)@.read_bit(old(self)@.forwards, height),
    {
        let bits = self.def.bits();
        let taps = self.def.taps();
        let bit: u32 = if height > self.ref_level {
            1
        } else {
            0
        };
        proof {
            lemma_shift_fits(self.bitstream, bits, bit);
        }
        let window = if self.forwards {
            push_top(self.bitstream, bits, bit)
        } else {
            push_bottom(self.bitstream, bits, bit)
        };
        let predicted = if self.forwards {
            fwd(self.bitstream, bits, taps)
        } else {
            rev(self.bitstream, bits, taps)
        };
        self.valid_counter = if window == predicted {
            count_up(self.valid_counter)
        } else {
            0
        };
        self.bitstream = window;
        self.timecode_ticker = 0;
        self.ref_level = self.ref_level - self.ref_level / REF_PEAKS_AVG + height / REF_PEAKS_AVG;
    }

    /// Takes one frame of samples.
    fn process_sample(&mut self, left: i16, right: i16)
        requires
            old(self).wf(),
        ensures
            final(self).wf(),
            final(self)@ == old(self)@.step(left, right),
    {
        let flags = self.def.flags();
        let (primary, secondary) = if flags.primary {
            (left, right)
        } else {
            (right, left)
        };
        let primary_positive = detect(self.primary_positive, primary, self.threshold);
        let secondary_positive = detect(self.secondary_positive, secondary, self.threshold);
        let primary_swapped = primary_positive != self.primary_positive;
        let secondary_swapped = secondary_positive != self.secondary_positive;
        self.primary_positive = primary_positive;
        self.secondary_positive = secondary_positive;
        self.timecode_ticker = count_up(self.timecode_ticker);
        if primary_swapped || secondary_swapped {
            let leads = if primary_swapped {
                primary_positive != secondary_positive
            } else {
                primary_positive == secondary_positive
            };
            let forwards = leads != flags.phase;
            if forwards != self.forwards {
                self.forwards = forwards;
                self.valid_counter = 0;
            }
            let span: i64 = count_up(self.crossing_ticker) as i64;
            self.intervals.record(
                if forwards {
                    span
                } else {
                    -span
                },
            );
            self.crossing_ticker = 0;
        } else {
            self.crossing_ticker = count_up(self.crossing_ticker);
        }
        if secondary_swapped && primary_positive != flags.polarity {
            let height = peak(primary);
            self.process_bit(height);
        }
    }

    /// Takes a block of interleaved stereo samples, left before right, and
    /// follows the signal through it. A block with an odd number of samples is
    /// refused and changes nothing.
    pub fn submit(&mut self, samples: &[i16]) -> (done: Result<(), XwaxError>)
        requires
            old(self).wf(),
        ensures
            final(self).wf(),
            samples@.len() % 2 == 0 ==> done == Ok::<(), XwaxError>(()) && final(self)@ == old(
                self,
            )@.run(samples@),
            samples@.len() % 2 != 0 ==> done == Err::<(), XwaxError>(XwaxError::SampleCountError)
                && final(self)@ == old(self)@,
            final(self)@.def == old(self)@.def,
            final(self)@.sample_rate == old(self)@.sample_rate,
            final(self)@.threshold == old(self)@.threshold,
    {
        let total = samples.len();
        if total % 2 != 0 {
            return Err(XwaxError::SampleCountError);
        }
        let mut at: usize = 0;
        proof {
            assert(samples@.take(0) =~= Seq::<i16>::empty());
        }
        while at < total
            invariant
                total == samples@.len(),
                total % 2 == 0,
                at % 2 == 0,
                at <= total,
                self.wf(),
                self@ == old(self)@.run(samples@.take(at as int)),
                self@.def == old(self)@.def,
                self@.sample_rate == old(self)@.sample_rate,
                self@.threshold == old(self)@.threshold,
            decreases total - at,
        {
            proof {
                let seen = samples@.take(at + 2);
                assert(seen.take(at as int) =~= samples@.take(at as int));
            }
            self.process_sample(samples[at], samples[at + 1]);
            at += 2;
        }
        proof {
            assert(samples@.take(total as int) =~= samples@);
        }
        Ok(())
    }

    /// The position of the platter, if the decoder knows it: the place of the
    /// window in the sequence, with the time since its last bit was read.
    pub fn get_position(&self) -> (fix: Option<Postition>)
        requires
            self.wf(),
        ensures
            fix is Some <==> self@.has_position(),
            fix matches Some(p) ==> {
                &&& 0 <= p.position < self@.def.length
                &&& position_of(self@.def.table, self@.bitstream, Some(p.position as u32))
                &&& self@.bitstream == orbit(
                    self@.def.seed,
                    self@.def.bits,
                    self@.def.taps,
                    p.position as nat,
                )
                &&& p.elapsed == elapsed_of(self@.timecode_ticker, self@.sample_rate)
                &&& p.elapsed.secs == 0
                &&& p.elapsed.nanos < NANOS_PER_SEC
            },
    {
        if self.valid_counter <= VALID_BITS || self.timecode_ticker >= self.sample_rate {
            return None;
        }
        match self.def.lookup(self.bitstream) {
            None => None,
            Some(place) => {
                let ticks = self.timecode_ticker;
                let rate = self.sample_rate;
                let rest: u64 = (ticks % rate) as u64;
                assert(ticks / rate == 0) by (nonlinear_arith)
                    requires
                        0 <= ticks < rate,
                ;
                assert((rest * NANOS_PER_SEC) / (rate as int) < NANOS_PER_SEC) by (nonlinear_arith)
                    requires
                        rest < rate,
                        rate > 0,
                ;
                assert(rest * NANOS_PER_SEC <= 0xffff_ffff * NANOS_PER_SEC) by (nonlinear_arith)
                    requires
                        rest <= 0xffff_ffff,
                ;
                Some(
                    Postition {
                        position: place as i32,
                        elapsed: Elapsed {
                            secs: (ticks / rate) as u64,
                            nanos: (rest * NANOS_PER_SEC / (rate as u64)) as u32,
                        },
                    },
                )
            },
        }
    }

    /// The speed of the platter as a fraction of the nominal speed: the
    /// transitions of the last intervals, counted with their direction, over
    /// the transitions that the same time holds at nominal speed, which are
    /// four for each cycle of the carrier. No interval is shorter than one
    /// sample, so the speed is never beyond `sample_rate / (4 * resolution)`.
    /// The speed is zero before the first transition, and for a definition
    /// whose resolution is not positive, which has no nominal speed.
    pub fn get_pitch(&self) -> (pitch: Pitch)
        requires
            self.wf(),
        ensures
            pitch == self@.pitch(),
            pitch.den > 0,
            self@.moving() ==> pitch.num == net_of(self@.intervals) * self@.sample_rate
                && pitch.den == 4 * self@.def.resolution * span_of(self@.intervals),
            -span_of(self@.intervals) <= net_of(self@.intervals) <= span_of(self@.intervals),
    {
        let (net, span) = self.intervals.totals();
        proof {
            lemma_totals_bounded(self@.intervals);
        }
        let rate = self.sample_rate;
        let resolution = self.def.resolution();
        if span == 0 || resolution <= 0 {
            return Pitch { num: 0, den: 1 };
        }
        let cycles: u128 = 4u128 * (resolution as u128);
        assert(-16 * 0xffff_ffff <= net * rate <= 16 * 0xffff_ffff) by (nonlinear_arith)
            requires
                -16 <= net <= 16,
                0 <= rate <= 0xffff_ffff,
        ;
        assert(0 < cycles * span <= 0x2_0000_0000 * 0x10_0000_0000) by (nonlinear_arith)
            requires
                0 < cycles <= 0x2_0000_0000,
                0 < span <= 0x10_0000_0000,
        ;
        assert(cycles * span == 4 * resolution * span) by (nonlinear_arith)
            requires
                cycles == 4 * resolution,
        ;
        Pitch { num: (net as i64) * (rate as i64), den: cycles * (span as u128) }
    }
}

/// A counter that stops at its largest value, after `n` ticks.
pub open spec fn ticks(count: u32, n: nat) -> u32 {
    if count + n <= u32::MAX {
        (count + n) as u32
    } else {
        u32::MAX
    }
}

/// No sample of the block lies beyond the threshold.
pub open spec fn quiet(samples: Seq<i16>, threshold: i32) -> bool {
    forall|i: int| 0 <= i < samples.len() ==> -threshold <= #[trigger] samples[i] <= threshold
}

/// The bit that a peak stands for at a reference level.
pub open spec fn bit_of(peak: u32, ref_level: u32) -> u32 {
    if peak > ref_level {
        1
    } else {
        0
    }
}

/// Reading a bit keeps a decoder valid.
pub proof fn lemma_read_keeps_valid(s: TimecoderView, forwards: bool, peak: u32)
    requires
        s.valid(),
        peak <= PEAK_MAX,
    ensures
        s.read_bit(forwards, peak).valid(),
{
    lemma_shift_fits(s.bitstream, s.def.bits, bit_of(peak, s.ref_level));
}

/// A frame of samples keeps a decoder valid, whatever the samples are.
pub proof fn lemma_step_keeps_valid(s: TimecoderView, left: i16, right: i16)
    requires
        s.valid(),
    ensures
        s.step(left, right).valid(),
        s.step(left, right).def == s.def,
        s.step(left, right).sample_rate == s.sample_rate,
        s.step(left, right).threshold == s.threshold,
{
    let span = tick(s.crossing_ticker) as int;
    lemma_slide_admissible(s.intervals, span);
    lemma_slide_admissible(s.intervals, -span);
    let peak = peak_of(s.primary_of(left, right));
    assert(peak <= PEAK_MAX);
    lemma_shift_fits(s.bitstream, s.def.bits, bit_of(peak, s.ref_level));
}

/// A block of samples keeps a decoder valid, and leaves its definition, its
/// sample rate and its threshold as they are.
pub proof fn lemma_run_keeps_valid(s: TimecoderView, samples: Seq<i16>)
    requires
        s.valid(),
    ensures
        s.run(samples).valid(),
        s.run(samples).def == s.def,
        s.run(samples).sample_rate == s.sample_rate,
        s.run(samples).threshold == s.threshold,
    decreases samples.len(),
{
    if samples.len() >= 2 {
        let n = samples.len() - samples.len() % 2;
        let before = samples.take(n - 2);
        lemma_run_keeps_valid(s, before);
        lemma_step_keeps_valid(s.run(before), samples[n - 2], samples[n - 1]);
    }
}

/// A frame within the threshold changes nothing but the time: no transition is
/// seen and no bit is read.
pub proof fn lemma_quiet_frame(s: TimecoderView, left: i16, right: i16)
    requires
        s.threshold > 0,
        -s.threshold <= left <= s.threshold,
        -s.threshold <= right <= s.threshold,
    ensures
        s.step(left, right) == (TimecoderView {
            timecode_ticker: tick(s.timecode_ticker),
            crossing_ticker: tick(s.crossing_ticker),
            ..s
        }),
{
}

/// A block within the threshold changes nothing but the time: the window of
/// bits, the count of valid bits, the direction, the reference level and the
/// intervals stay as they are, whatever the shape of the noise.
pub proof fn lemma_quiet_block(s: TimecoderView, samples: Seq<i16>)
    requires
        s.threshold > 0,
        quiet(samples, s.threshold),
    ensures
        s.run(samples) == (TimecoderView {
            timecode_ticker: ticks(s.timecode_ticker, samples.len() / 2),
            crossing_ticker: ticks(s.crossing_ticker, samples.len() / 2),
            ..s
        }),
    decreases samples.len(),
{
    if samples.len() >= 2 {
        let n = samples.len() - samples.len() % 2;
        let before = samples.take(n - 2);
        lemma_quiet_block(s, before);
        lemma_quiet_frame(s.run(before), samples[n - 2], samples[n - 1]);
    }
}

/// Silence loses the position: after a block within the threshold that lasts
/// a second or longer, the decoder does not know its position, whatever it
/// knew before. A block of zeros is such a block.
pub proof fn lemma_silence_loses_position(s: TimecoderView, samples: Seq<i16>)
    requires
        s.threshold > 0,
        quiet(samples, s.threshold),
        samples.len() / 2 >= s.sample_rate,
    ensures
        !s.run(samples).has_position(),
        s.run(samples).bitstream == s.bitstream,
        s.run(samples).intervals == s.intervals,
{
    lemma_quiet_block(s, samples);
}

/// Forwards, a bit that is what the sequence gives moves the window on by one
/// place and counts as valid.
pub proof fn lemma_read_forwards(s: TimecoderView, peak: u32, place: nat)
    requires
        s.bitstream == orbit(s.def.seed, s.def.bits, s.def.taps, place),
        bit_of(peak, s.ref_level) == feedback_forward(s.bitstream, s.def.taps),
    ensures
        s.read_bit(true, peak).bitstream == orbit(s.def.seed, s.def.bits, s.def.taps, place + 1),
        s.read_bit(true, peak).valid_counter == tick(s.valid_counter),
{
}

/// Backwards, a bit that is what the sequence gives moves the window back by
/// one place and counts as valid.
pub proof fn lemma_read_backwards(s: TimecoderView, peak: u32, place: nat)
    requires
        valid_bits(s.def.bits),
        fits(s.def.seed, s.def.bits),
        s.bitstream == orbit(s.def.seed, s.def.bits, s.def.taps, place + 1),
        bit_of(peak, s.ref_level) == feedback_reverse(s.bitstream, s.def.bits, s.def.taps),
    ensures
        s.read_bit(false, peak).bitstream == orbit(s.def.seed, s.def.bits, s.def.taps, place),
        s.read_bit(false, peak).valid_counter == tick(s.valid_counter),
{
    lemma_orbit_fits(s.def.seed, s.def.bits, s.def.taps, place);
    lemma_reverse_undoes_forward(
        orbit(s.def.seed, s.def.bits, s.def.taps, place),
        s.def.bits,
        s.def.taps,
    );
}

/// A bit that is not what the sequence gives makes the decoder start counting
/// again: it reports no position until enough valid bits have followed.
pub proof fn lemma_wrong_bit_unlocks(s: TimecoderView, forwards: bool, peak: u32)
    requires
        valid_bits(s.def.bits),
        fits(s.bitstream, s.def.bits),
        bit_of(peak, s.ref_level) != (if forwards {
            feedback_forward(s.bitstream, s.def.taps)
        } else {
            feedback_reverse(s.bitstream, s.def.bits, s.def.taps)
        }),
    ensures
        s.read_bit(forwards, peak).valid_counter == 0,
        !s.read_bit(forwards, peak).has_position(),
{
    let bits = s.def.bits;
    let top = (bits - 1) as u32;
    let mask = ((1u32 << bits) - 1) as u32;
    let w = s.bitstream;
    let a = bit_of(peak, s.ref_level);
    let b = if forwards {
        feedback_forward(w, s.def.taps)
    } else {
        feedback_reverse(w, bits, s.def.taps)
    };
    assert(a <= 1 && b <= 1);
    assert(((w >> 1) | (a << top)) != ((w >> 1) | (b << top)) && (((w << 1) & mask) | a) != (((w
        << 1) & mask) | b)) by (bit_vector)
        requires
            1 <= bits <= 31,
            top + 1 == bits,
            mask + 1 == (1u32 << bits),
            w < (1u32 << bits),
            a <= 1,
            b <= 1,
            a != b,
    ;
}

/// The peaks are those of a clean signal that plays forwards from place `from`
/// of the sequence: each of them, held against the reference level of its
/// moment, stands for the bit that the sequence carries at its place.
pub open spec fn genuine(s: TimecoderView, peaks: Seq<u32>, from: nat) -> bool {
    forall|k: int|
        0 <= k < peaks.len() ==> bit_of(
            #[trigger] peaks[k],
            s.read_bits(true, peaks.take(k)).ref_level,
        ) == sequence_bit(s.def.seed, s.def.bits, s.def.taps, (from + k) as nat)
}

proof fn lemma_genuine_prefix(s: TimecoderView, peaks: Seq<u32>, from: nat)
    requires
        genuine(s, peaks, from),
        peaks.len() > 0,
    ensures
        genuine(s, peaks.drop_last(), from),
        s.read_bits(true, peaks.drop_last()).def == s.def,
        bit_of(peaks.last(), s.read_bits(true, peaks.drop_last()).ref_level) == sequence_bit(
            s.def.seed,
            s.def.bits,
            s.def.taps,
            (from + peaks.len() - 1) as nat,
        ),
{
    let prefix = peaks.drop_last();
    assert forall|k: int| 0 <= k < prefix.len() implies bit_of(
        #[trigger] prefix[k],
        s.read_bits(true, prefix.take(k)).ref_level,
    ) == sequence_bit(s.def.seed, s.def.bits, s.def.taps, (from + k) as nat) by {
        assert(prefix.take(k) =~= peaks.take(k));
        assert(prefix[k] == peaks[k]);
    }
    assert(peaks.take(peaks.len() - 1) =~= prefix);
    assert(peaks[peaks.len() - 1] == peaks.last());
    lemma_reads_keep_definition(s, true, prefix);
}

/// Reading bits changes neither the definition nor the sample rate.
pub proof fn lemma_reads_keep_definition(s: TimecoderView, forwards: bool, peaks: Seq<u32>)
    ensures
        s.read_bits(forwards, peaks).def == s.def,
        s.read_bits(forwards, peaks).sample_rate == s.sample_rate,
        peaks.len() > 0 ==> s.read_bits(forwards, peaks).timecode_ticker == 0,
    decreases peaks.len(),
{
    if peaks.len() > 0 {
        lemma_reads_keep_definition(s, forwards, peaks.drop_last());
    }
}

/// The bits of a clean signal enter the window as the sequence carries them.
proof fn lemma_reads_fill_window(s: TimecoderView, peaks: Seq<u32>, from: nat)
    requires
        genuine(s, peaks, from),
    ensures
        s.read_bits(true, peaks).bitstream == fed_forwards(
            s.bitstream,
            s.def.seed,
            s.def.bits,
            s.def.taps,
            from,
            peaks.len(),
        ),
    decreases peaks.len(),
{
    if peaks.len() > 0 {
        lemma_genuine_prefix(s, peaks, from);
        lemma_reads_fill_window(s, peaks.drop_last(), from);
    }
}

/// Once the window is synchronised, every bit of a clean signal counts as
/// valid.
proof fn lemma_reads_count(s: TimecoderView, peaks: Seq<u32>, from: nat)
    requires
        valid_bits(s.def.bits),
        fits(s.def.seed, s.def.bits),
        fits(s.bitstream, s.def.bits),
        genuine(s, peaks, from),
        peaks.len() >= s.def.bits,
    ensures
        s.read_bits(true, peaks).bitstream == orbit(
            s.def.seed,
            s.def.bits,
            s.def.taps,
            from + peaks.len(),
        ),
        s.read_bits(true, peaks).valid_counter >= ticks(0, (peaks.len() - s.def.bits) as nat),
    decreases peaks.len(),
{
    lemma_reads_fill_window(s, peaks, from);
    lemma_window_follows(s.bitstream, s.def.seed, s.def.bits, s.def.taps, from, peaks.len());
    if peaks.len() > s.def.bits {
        let prefix = peaks.drop_last();
        lemma_genuine_prefix(s, peaks, from);
        lemma_reads_count(s, prefix, from);
        lemma_read_forwards(
            s.read_bits(true, prefix),
            peaks.last(),
            (from + peaks.len() - 1) as nat,
        );
    }
}

/// The decoder locks onto a clean signal: after more bits than the register is
/// wide and `VALID_BITS` together, read forwards from place `from` of the
/// sequence, the window is the state that the sequence has reached, whatever
/// the decoder held before, and the decoder reports the place of that state.
pub proof fn lemma_clean_signal_locks(s: TimecoderView, peaks: Seq<u32>, from: nat)
    requires
        s.valid(),
        s.sample_rate > 0,
        genuine(s, peaks, from),
        peaks.len() > s.def.bits + VALID_BITS,
        from + peaks.len() < s.def.length,
    ensures
        s.read_bits(true, peaks).bitstream == orbit(
            s.def.seed,
            s.def.bits,
            s.def.taps,
            from + peaks.len(),
        ),
        s.read_bits(true, peaks).has_position(),
        position_of(
            s.def.table,
            s.read_bits(true, peaks).bitstream,
            Some((from + peaks.len()) as u32),
        ),
{
    let place = from + peaks.len();
    let after = s.read_bits(true, peaks);
    lemma_sound_seed_fits(s.def);
    lemma_reads_count(s, peaks, from);
    lemma_reads_keep_definition(s, true, peaks);
    assert(after.def.table[place as int] == after.bitstream);
    assert forall|j: int| place < j < s.def.table.len() implies s.def.table[j]
        != after.bitstream by {
        if s.def.table[j] == after.bitstream {
            assert(orbit(s.def.seed, s.def.bits, s.def.taps, j as nat) == orbit(
                s.def.seed,
                s.def.bits,
                s.def.taps,
                place,
            ));
            assert(repeats_at(s.def.seed, s.def.bits, s.def.taps, j as nat));
            assert(!faulty_at(s.def.seed, s.def.bits, s.def.taps, j as nat));
        }
    }
}

} // verus!
