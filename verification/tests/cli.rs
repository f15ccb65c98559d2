use uconv::UconvError;
use uconv::cli::{help, run, Args, Commands};
use uconv::convert::Units;
use uconv::fixed::Fixed;
use uconv::text::{parse_value, render_fixed2};

fn fx(neg: bool, mag: u64) -> Fixed {
    Fixed::from_scaled(neg, mag)
}

#[test]
fn renders_two_decimals() {
    assert_eq!(render_fixed2(&fx(false, 0)), "0.00");
    assert_eq!(render_fixed2(&fx(false, 3_430_000_000)), "343.00");
    assert_eq!(render_fixed2(&fx(false, 705_894_000_000)), "70589.40");
    assert_eq!(render_fixed2(&fx(true, 25_000_000)), "-2.50");
}

#[test]
fn rounds_half_away_from_zero() {
    assert_eq!(render_fixed2(&fx(false, 26_750_000)), "2.68");
    assert_eq!(render_fixed2(&fx(false, 26_749_999)), "2.67");
    assert_eq!(render_fixed2(&fx(true, 1)), "-0.00");
}

#[test]
fn mach_request_prints_velocity_and_pressure() {
    let args = Args { command: Commands::Mach { value: parse_value("1").unwrap() } };
    assert_eq!(
        run(args).unwrap(),
        "Velocity is 343.00 m/s and Dynamic Pressure is 70589.40 Pa"
    );
}

#[test]
fn vel_request_prints_mach_and_pressure() {
    let args = Args { command: Commands::Vel { value: parse_value("343").unwrap() } };
    assert_eq!(
        run(args).unwrap(),
        "Mach is 1.00 and Dynamic Pressure is 70589.40 Pa"
    );
}

#[test]
fn dynpress_request_in_psi_prints_all_three() {
    let args = Args {
        command: Commands::DynPress {
            value: parse_value("1").unwrap(),
            units: Units::Psi,
        },
    };
    assert_eq!(
        run(args).unwrap(),
        "Mach is 0.31, Velocity is 107.20 m/s, and Dynamic Pressure is 6894.76 Pa"
    );
}

#[test]
fn dynpress_request_rejects_negative_pressure() {
    let args = Args {
        command: Commands::DynPress {
            value: parse_value("-1").unwrap(),
            units: Units::Pa,
        },
    };
    assert_eq!(run(args), Err(UconvError::NegativePressure));
}

#[test]
fn mach_request_rejects_values_that_do_not_fit() {
    let args = Args { command: Commands::Mach { value: fx(false, u64::MAX) } };
    assert_eq!(run(args), Err(UconvError::TooLarge));
}

#[test]
fn help_names_the_three_commands() {
    let h = help();
    assert!(h.contains("mach"));
    assert!(h.contains("vel"));
    assert!(h.contains("dynpress"));
    assert!(h.starts_with("usage:"));
}
