use xwax::lfsr::fwd;
use xwax::lut::Lut;
use xwax::{Flags, TimecoderDef, XwaxError};

fn error_of(made: Result<TimecoderDef, XwaxError>) -> XwaxError {
    match made {
        Ok(_) => panic!("the definition was built"),
        Err(e) => e,
    }
}

#[test]
fn empty_table_finds_nothing() {
    let lut = Lut::new();
    assert_eq!(lut.len(), 0);
    assert_eq!(lut.lookup(0), None);
    assert_eq!(lut.lookup(0xffff_ffff), None);
}

#[test]
fn table_finds_each_state_at_the_index_it_was_pushed() {
    let mut lut = Lut::new();
    let states = [7u32, 9, 0, 0xffff_ffff, 65536 + 7, 2 * 65536 + 7, 12];
    for s in states {
        lut.push(s);
    }
    assert_eq!(lut.len(), 7);
    for (i, s) in states.iter().enumerate() {
        assert_eq!(lut.lookup(*s), Some(i as u32));
    }
    assert_eq!(lut.lookup(3 * 65536 + 7), None);
    assert_eq!(lut.lookup(8), None);
}

#[test]
fn table_finds_the_latest_of_equal_states() {
    let mut lut = Lut::new();
    lut.push(5);
    lut.push(6);
    lut.push(5);
    assert_eq!(lut.lookup(5), Some(2));
    assert_eq!(lut.lookup(6), Some(1));
}

#[test]
fn maximal_five_bit_definition_is_built() {
    let def = TimecoderDef::new(5, 1000, 1, 0b00100, 31, 25).unwrap();
    assert_eq!(def.bits(), 5);
    assert_eq!(def.resolution(), 1000);
    assert_eq!(def.seed(), 1);
    assert_eq!(def.taps(), 0b00100);
    assert_eq!(def.length(), 31);
    assert_eq!(def.safe(), 25);
    assert_eq!(def.flags(), Flags { phase: false, primary: false, polarity: false });
}

#[test]
fn lookup_returns_the_index_of_every_generated_state() {
    let def = TimecoderDef::new(5, 1000, 1, 0b00100, 31, 25).unwrap();
    let mut state = 1u32;
    for i in 0..31u32 {
        assert_eq!(def.lookup(state), Some(i));
        state = fwd(state, 5, 0b00100);
    }
    assert_eq!(def.lookup(0), None);
    assert_eq!(def.lookup(32), None);
    assert_eq!(def.lookup(4), Some(3));
    assert_eq!(def.lookup(18), Some(4));
}

#[test]
fn lookup_returns_the_index_of_every_state_of_a_production_sequence() {
    let def = TimecoderDef::new(20, 1000, 0x59017, 0x361e4, 712000, 625000).unwrap();
    let mut state = 0x59017u32;
    for i in 0..712000u32 {
        assert_eq!(def.lookup(state), Some(i));
        state = fwd(state, 20, 0x361e4);
    }
    assert_eq!(def.lookup(0x59017), Some(0));
    assert_eq!(def.lookup(0xac80b), Some(1));
    assert_eq!(def.lookup(0x93546), Some(711999));
    assert_eq!(def.lookup(0), None);
    assert_eq!(def.lookup(0x10_0000), None);
}

#[test]
fn other_production_sequences_are_built() {
    assert!(TimecoderDef::new(20, 1000, 0x8f3c6, 0x4f0d8, 922000, 905000).is_ok());
    assert!(TimecoderDef::new(23, 2000, 0x134503, 0x041040, 1500000, 605000).is_ok());
}

#[test]
fn a_part_of_a_sequence_is_built() {
    let def = TimecoderDef::new(5, 1000, 1, 0b00100, 10, 0).unwrap();
    assert_eq!(def.length(), 10);
    assert_eq!(def.lookup(1), Some(0));
    // State 10 of the sequence is not in a table of ten states.
    let mut state = 1u32;
    for _ in 0..10 {
        state = fwd(state, 5, 0b00100);
    }
    assert_eq!(def.lookup(state), None);
}

#[test]
fn empty_sequence_is_built() {
    let def = TimecoderDef::new(5, 1000, 1, 0b00100, 0, 0).unwrap();
    assert_eq!(def.length(), 0);
    assert_eq!(def.lookup(1), None);
}

#[test]
fn cycle_shorter_than_length_fails_with_wrap_error() {
    // The full cycle has 31 states: state 31 is the seed again.
    assert_eq!(error_of(TimecoderDef::new(5, 1000, 1, 0b00100, 32, 0)), XwaxError::LUTWrapError);
    assert_eq!(error_of(TimecoderDef::new(5, 1000, 1, 0b00100, 1000, 0)), XwaxError::LUTWrapError);
    // Without taps the single bit comes round after five steps.
    assert_eq!(error_of(TimecoderDef::new(5, 1000, 1, 0, 31, 0)), XwaxError::LUTWrapError);
    assert!(TimecoderDef::new(5, 1000, 1, 0, 5, 0).is_ok());
    // The state of all zeros steps to itself.
    assert_eq!(error_of(TimecoderDef::new(5, 1000, 0, 0b00100, 2, 0)), XwaxError::LUTWrapError);
    assert!(TimecoderDef::new(5, 1000, 0, 0b00100, 1, 0).is_ok());
}

#[test]
fn five_bit_taps_10010_cycle_after_eight_states() {
    assert!(TimecoderDef::new(5, 1000, 1, 0b10010, 8, 0).is_ok());
    assert_eq!(error_of(TimecoderDef::new(5, 1000, 1, 0b10010, 9, 0)), XwaxError::LUTWrapError);
    assert_eq!(error_of(TimecoderDef::new(5, 1000, 1, 0b10010, 31, 0)), XwaxError::LUTWrapError);
}

#[test]
fn seed_wider_than_register_fails_with_symmetry_error() {
    assert_eq!(
        error_of(TimecoderDef::new(5, 1000, 33, 0b00100, 31, 0)),
        XwaxError::LUTSymmetryError
    );
    assert_eq!(
        error_of(TimecoderDef::new(5, 1000, 32, 0b00100, 1, 0)),
        XwaxError::LUTSymmetryError
    );
    assert_eq!(
        error_of(TimecoderDef::new(20, 1000, 0x159017, 0x361e4, 712000, 0)),
        XwaxError::LUTSymmetryError
    );
    // With no step to check there is nothing to fail.
    assert!(TimecoderDef::new(5, 1000, 33, 0b00100, 0, 0).is_ok());
}

#[test]
fn register_width_out_of_range_fails_with_init_error() {
    assert_eq!(error_of(TimecoderDef::new(0, 1000, 1, 0b00100, 31, 0)), XwaxError::LUTInitError);
    assert_eq!(error_of(TimecoderDef::new(32, 1000, 1, 0b00100, 31, 0)), XwaxError::LUTInitError);
    assert_eq!(
        error_of(TimecoderDef::new(0xffff_ffff, 1000, 1, 0b00100, 31, 0)),
        XwaxError::LUTInitError
    );
    assert!(TimecoderDef::new(1, 1000, 1, 0, 1, 0).is_ok());
    assert!(TimecoderDef::new(31, 1000, 1, 0x48, 1000, 0).is_ok());
}

#[test]
fn length_out_of_range_fails_with_init_error() {
    assert_eq!(
        error_of(TimecoderDef::new(5, 1000, 1, 0b00100, 0x8000_0000, 0)),
        XwaxError::LUTInitError
    );
    assert_eq!(
        error_of(TimecoderDef::new(5, 1000, 1, 0b00100, 0xffff_ffff, 0)),
        XwaxError::LUTInitError
    );
    assert_eq!(
        error_of(TimecoderDef::new(5, 1000, 1, 0b00100, 0x7fff_ffff, 0)),
        XwaxError::LUTWrapError
    );
}

#[test]
fn flags_are_set_one_by_one_and_keep_the_table() {
    let def = TimecoderDef::new(5, 1000, 1, 0b00100, 31, 25).unwrap();
    let def = def.switch_phase();
    assert_eq!(def.flags(), Flags { phase: true, primary: false, polarity: false });
    assert_eq!(def.flags().mask(), 0b001);
    let def = def.switch_polarity();
    assert_eq!(def.flags(), Flags { phase: true, primary: false, polarity: true });
    assert_eq!(def.flags().mask(), 0b101);
    let def = def.switch_primary();
    assert_eq!(def.flags(), Flags { phase: true, primary: true, polarity: true });
    assert_eq!(def.flags().mask(), 0b111);
    let def = def.switch_primary();
    assert_eq!(def.flags().mask(), 0b111);
    assert_eq!(def.length(), 31);
    assert_eq!(def.safe(), 25);
    assert_eq!(def.lookup(18), Some(4));

    let other = TimecoderDef::new(5, 1000, 1, 0b00100, 31, 25).unwrap().switch_primary();
    assert_eq!(other.flags().mask(), 0b010);
    let other = TimecoderDef::new(5, 1000, 1, 0b00100, 31, 25).unwrap().switch_polarity();
    assert_eq!(other.flags().mask(), 0b100);
}

#[test]
fn errors_describe_themselves() {
    assert_eq!(XwaxError::LUTInitError.message(), "Failed to initialized timecode LUT.");
    assert_eq!(XwaxError::LUTWrapError.message(), "LUT wrapped during building.");
    assert_eq!(XwaxError::LUTSymmetryError.message(), "LUT was not symmetric.");
    assert_eq!(
        XwaxError::SampleCountError.message(),
        "Sample buffer holds an odd number of samples."
    );
}
