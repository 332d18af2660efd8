use xwax::lfsr::{push_bottom, push_top};
use xwax::{fwd, lfsr, rev};

#[test]
fn feedback_bit_is_parity_of_tapped_bits() {
    assert_eq!(lfsr(0, 0xffff_ffff), 0);
    assert_eq!(lfsr(0xffff_ffff, 0), 0);
    assert_eq!(lfsr(0b1011, 0b0110), 1);
    assert_eq!(lfsr(0b1011, 0b0011), 0);
    assert_eq!(lfsr(0b1011, 0b1011), 1);
    assert_eq!(lfsr(0xffff_ffff, 0xffff_ffff), 0);
    assert_eq!(lfsr(0x8000_0000, 0xffff_ffff), 1);
    assert_eq!(lfsr(0x59017, 0x361e4 | 1), 1);
}

#[test]
fn forward_step_shifts_right_and_enters_feedback_at_top() {
    assert_eq!(fwd(1, 5, 0b10010), 16);
    assert_eq!(fwd(16, 5, 0b10010), 24);
    assert_eq!(fwd(24, 5, 0b10010), 28);
    assert_eq!(fwd(3, 5, 0b10010), 1);
    assert_eq!(fwd(0, 5, 0b10010), 0);
    assert_eq!(fwd(1, 5, 0b00100), 16);
    assert_eq!(fwd(16, 5, 0b00100), 8);
    assert_eq!(fwd(4, 5, 0b00100), 18);
    assert_eq!(fwd(0x59017, 20, 0x361e4), 0xac80b);
    assert_eq!(fwd(0xac80b, 20, 0x361e4), 0xd6405);
}

#[test]
fn reverse_step_shifts_left_and_enters_feedback_at_bottom() {
    assert_eq!(rev(16, 5, 0b10010), 1);
    assert_eq!(rev(24, 5, 0b10010), 16);
    assert_eq!(rev(1, 5, 0b10010), 3);
    assert_eq!(rev(0, 5, 0b10010), 0);
    assert_eq!(rev(18, 5, 0b00100), 4);
    assert_eq!(rev(0xac80b, 20, 0x361e4), 0x59017);
    assert_eq!(rev(0xd6405, 20, 0x361e4), 0xac80b);
}

#[test]
fn reverse_step_masks_to_register_width() {
    // 33 does not fit five bits: the step backwards cannot lead back to it.
    let next = fwd(33, 5, 0b10010);
    assert_eq!(next, 16);
    assert_eq!(rev(next, 5, 0b10010), 1);
    assert!(rev(0xffff_ffff, 5, 0) < 32);
}

#[test]
fn shifting_a_bit_in_keeps_the_rest_of_the_window() {
    assert_eq!(push_top(0b00110, 5, 1), 0b10011);
    assert_eq!(push_top(0b00111, 5, 0), 0b00011);
    assert_eq!(push_bottom(0b10110, 5, 1), 0b01101);
    assert_eq!(push_bottom(0b10110, 5, 0), 0b01100);
    assert_eq!(push_top(0, 31, 1), 0x4000_0000);
    assert_eq!(push_bottom(0x7fff_ffff, 31, 0), 0x7fff_fffe);
}

#[test]
fn round_trip_holds_for_every_state_of_small_registers() {
    for bits in 1u32..=8 {
        for taps in 0u32..(1 << bits) {
            for state in 0u32..(1 << bits) {
                assert_eq!(rev(fwd(state, bits, taps), bits, taps), state);
                assert_eq!(fwd(rev(state, bits, taps), bits, taps), state);
            }
        }
    }
}

#[test]
fn round_trip_holds_for_every_state_of_sixteen_bits() {
    for taps in [0u32, 0x1, 0x8016, 0xb400, 0xffff, 0x1_0000, 0xffff_ffff] {
        for state in 0u32..(1 << 16) {
            assert_eq!(rev(fwd(state, 16, taps), 16, taps), state);
            assert_eq!(fwd(rev(state, 16, taps), 16, taps), state);
        }
    }
}

#[test]
fn round_trip_holds_along_a_production_sequence() {
    let mut state = 0x59017u32;
    for _ in 0..100_000 {
        let next = fwd(state, 20, 0x361e4);
        assert!(next < (1 << 20));
        assert_eq!(rev(next, 20, 0x361e4), state);
        assert_eq!(fwd(rev(state, 20, 0x361e4), 20, 0x361e4), state);
        state = next;
    }
}

#[test]
fn round_trip_holds_at_the_widest_register() {
    for state in [0u32, 1, 0x4000_0000, 0x7fff_ffff, 0x1234_5678, 0x2aaa_aaaa] {
        for taps in [0u32, 0x48, 0x7fff_ffff, 0xffff_ffff] {
            assert_eq!(rev(fwd(state, 31, taps), 31, taps), state);
            assert_eq!(fwd(rev(state, 31, taps), 31, taps), state);
        }
    }
}

#[test]
fn five_bit_maximal_sequence_returns_to_seed_at_step_31_only() {
    let mut state = 1u32;
    for step in 1..=31 {
        state = fwd(state, 5, 0b00100);
        if step < 31 {
            assert_ne!(state, 1, "came back to the seed at step {}", step);
        }
    }
    assert_eq!(state, 1);
}

#[test]
fn five_bit_taps_10010_return_to_seed_at_step_8() {
    let mut state = 1u32;
    let mut seen = vec![state];
    for _ in 0..7 {
        state = fwd(state, 5, 0b10010);
        assert!(!seen.contains(&state));
        seen.push(state);
    }
    assert_eq!(seen, vec![1, 16, 24, 28, 30, 15, 7, 3]);
    assert_eq!(fwd(state, 5, 0b10010), 1);
}

#[test]
fn window_synchronises_after_as_many_bits_as_the_register_is_wide() {
    let (bits, seed, taps) = (20u32, 0x59017u32, 0x361e4u32);
    for start in [0u32, 0xfffff, 0x12345, 0xabcde] {
        let mut window = start;
        let mut state = seed;
        for place in 0..200u32 {
            window = push_top(window, bits, lfsr(state, taps | 1));
            state = fwd(state, bits, taps);
            if place + 1 >= bits {
                assert_eq!(window, state);
            }
        }
    }
}
