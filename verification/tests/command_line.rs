use creature_life_cycle::{OptionsError, SimOptions};

#[test]
fn parse_options_accepts_seed() {
    let options = SimOptions::try_parse_from(&[
        "creature_life_cycle",
        "--turns",
        "3",
        "--delay-ms",
        "0",
        "--seed",
        "99",
    ])
    .unwrap();

    assert_eq!(
        options,
        SimOptions {
            turns: 3,
            delay_ms: 0,
            seed: Some(99)
        }
    );
}

#[test]
fn parse_options_accepts_help() {
    assert_eq!(
        SimOptions::try_parse_from(&["creature_life_cycle", "--help"]).unwrap_err(),
        OptionsError::DisplayHelp
    );
    assert_eq!(
        SimOptions::try_parse_from(&["creature_life_cycle", "-h"]).unwrap_err(),
        OptionsError::DisplayHelp
    );
}

#[test]
fn parse_options_rejects_invalid_input() {
    assert!(SimOptions::try_parse_from(&["creature_life_cycle", "--turns"]).is_err());
    assert!(SimOptions::try_parse_from(&["creature_life_cycle", "--turns", "abc"]).is_err());
    assert!(SimOptions::try_parse_from(&["creature_life_cycle", "--unknown"]).is_err());
}

#[test]
fn options_default_when_not_given() {
    assert_eq!(
        SimOptions::try_parse_from(&["creature_life_cycle"]),
        Ok(SimOptions {
            turns: 60,
            delay_ms: 400,
            seed: None
        })
    );
    assert_eq!(
        SimOptions::try_parse_from(&[]),
        Ok(SimOptions {
            turns: 60,
            delay_ms: 400,
            seed: None
        })
    );
}

#[test]
fn attached_values_and_plus_signs_are_read() {
    assert_eq!(
        SimOptions::try_parse_from(&["run", "--seed=+007", "--turns=12"]),
        Ok(SimOptions {
            turns: 12,
            delay_ms: 400,
            seed: Some(7)
        })
    );
    assert_eq!(
        SimOptions::try_parse_from(&["run", "--seed", "18446744073709551615"]),
        Ok(SimOptions {
            turns: 60,
            delay_ms: 400,
            seed: Some(u64::MAX)
        })
    );
}

#[test]
fn each_refusal_has_its_kind() {
    let kind = |args: &[&str]| SimOptions::try_parse_from(args).unwrap_err();
    assert_eq!(kind(&["run", "--turns"]), OptionsError::InvalidValue);
    assert_eq!(kind(&["run", "--turns", "--seed", "1"]), OptionsError::InvalidValue);
    assert_eq!(kind(&["run", "--turns", "abc"]), OptionsError::ValueValidation);
    assert_eq!(kind(&["run", "--seed", "18446744073709551616"]), OptionsError::ValueValidation);
    assert_eq!(kind(&["run", "--delay-ms=", "--turns", "1"]), OptionsError::ValueValidation);
    assert_eq!(kind(&["run", "--seed=+"]), OptionsError::ValueValidation);
    assert_eq!(kind(&["run", "--turns", "-3"]), OptionsError::UnknownArgument);
    assert_eq!(kind(&["run", "--unknown"]), OptionsError::UnknownArgument);
    assert_eq!(kind(&["run", "extra"]), OptionsError::UnknownArgument);
    assert_eq!(kind(&["run", "--", "--turns"]), OptionsError::UnknownArgument);
    assert_eq!(kind(&["run", "--turns", "1", "--turns", "2"]), OptionsError::ArgumentConflict);
    assert_eq!(kind(&["run", "--help=yes"]), OptionsError::TooManyValues);
    assert_eq!(kind(&["run", "-V"]), OptionsError::DisplayVersion);
    assert_eq!(kind(&["run", "--version"]), OptionsError::DisplayVersion);
}

#[test]
fn a_waiting_value_is_checked_before_help() {
    assert_eq!(
        SimOptions::try_parse_from(&["run", "--turns", "x", "--help"]),
        Err(OptionsError::ValueValidation)
    );
    assert_eq!(
        SimOptions::try_parse_from(&["run", "--turns", "x", "--bogus"]),
        Err(OptionsError::UnknownArgument)
    );
    assert_eq!(
        SimOptions::try_parse_from(&["run", "--turns", "5", "-h"]),
        Err(OptionsError::DisplayHelp)
    );
}

#[test]
fn a_bare_double_dash_ends_the_options() {
    assert_eq!(
        SimOptions::try_parse_from(&["run", "--turns", "4", "--"]),
        Ok(SimOptions {
            turns: 4,
            delay_ms: 400,
            seed: None
        })
    );
    assert_eq!(
        SimOptions::try_parse_from(&["run", "--turns", "--"]),
        Err(OptionsError::InvalidValue)
    );
}

#[test]
fn any_seed_written_in_decimal_is_read_back() {
    for seed in [0u64, 7, 10, 99, 1_000_000, u64::MAX - 1, u64::MAX] {
        let text = seed.to_string();
        assert_eq!(
            SimOptions::try_parse_from(&["creature_life_cycle", "--seed", &text]),
            Ok(SimOptions {
                turns: 60,
                delay_ms: 400,
                seed: Some(seed)
            })
        );
    }
}
