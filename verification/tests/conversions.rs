use uconv::UconvError;
use uconv::convert::{from_dynpress, from_mach, from_vel, unit_of_token, Units};
use uconv::fixed::Fixed;

fn fx(neg: bool, mag: u64) -> Fixed {
    Fixed::from_scaled(neg, mag)
}

#[test]
fn unit_tokens_are_case_insensitive() {
    assert_eq!(unit_of_token(Some("PSI")), Units::Psi);
    assert_eq!(unit_of_token(Some("psi")), Units::Psi);
    assert_eq!(unit_of_token(Some("Psi")), Units::Psi);
    assert_eq!(unit_of_token(Some("Pa")), Units::Pa);
    assert_eq!(unit_of_token(Some("pA")), Units::Pa);
    assert_eq!(unit_of_token(Some("bar")), Units::NoInp);
    assert_eq!(unit_of_token(Some("")), Units::NoInp);
    assert_eq!(unit_of_token(None), Units::NoInp);
}

#[test]
fn units_from_optional_string() {
    assert_eq!(Units::from(Some(String::from("PSI"))), Units::Psi);
    assert_eq!(Units::from(Some(String::from("pa"))), Units::Pa);
    assert_eq!(Units::from(Some(String::from("furlong"))), Units::NoInp);
    assert_eq!(Units::from(None), Units::NoInp);
}

#[test]
fn mach_zero_gives_zero_velocity_and_pressure() {
    let (vel, q) = from_mach(fx(false, 0)).unwrap();
    assert_eq!(vel, fx(false, 0));
    assert_eq!(q, fx(false, 0));
}

#[test]
fn mach_one_gives_the_speed_of_sound() {
    let (vel, q) = from_mach(fx(false, 10_000_000)).unwrap();
    assert_eq!(vel, fx(false, 3_430_000_000)); // 343 m/s
    assert_eq!(q, fx(false, 705_894_000_000)); // 0.5 * 1.2 * 343^2 = 70589.4 Pa
}

#[test]
fn negative_mach_gives_negative_velocity() {
    let (vel, q) = from_mach(fx(true, 10_000_000)).unwrap();
    assert_eq!(vel, fx(true, 3_430_000_000));
    assert_eq!(q, fx(false, 705_894_000_000));
}

#[test]
fn velocity_at_the_speed_of_sound_is_mach_one() {
    let (mach, q) = from_vel(fx(false, 3_430_000_000)).unwrap();
    assert_eq!(mach, fx(false, 10_000_000));
    assert_eq!(q, fx(false, 705_894_000_000));
}

#[test]
fn dynamic_pressure_in_pa_inverts_the_formula() {
    let (mach, vel, pa) = from_dynpress(fx(false, 705_894_000_000), Units::Pa).unwrap();
    assert_eq!(mach, fx(false, 10_000_000));
    assert_eq!(vel, fx(false, 3_430_000_000));
    assert_eq!(pa, fx(false, 705_894_000_000));
}

#[test]
fn one_psi_is_converted_to_pa() {
    let (mach, vel, pa) = from_dynpress(fx(false, 10_000_000), Units::Psi).unwrap();
    assert_eq!(pa, fx(false, 68_947_572_932)); // 6894.7572932 Pa
    assert_eq!(vel, fx(false, 1_071_973_047)); // ~107.1973 m/s
    assert_eq!(mach, fx(false, 3_125_285)); // ~0.3125
}

#[test]
fn psi_input_matches_its_pa_equivalent() {
    let psi = from_dynpress(fx(false, 10_000_000), Units::Psi).unwrap();
    let pa = from_dynpress(fx(false, 68_947_572_932), Units::Pa).unwrap();
    assert_eq!(psi, pa);
}

#[test]
fn unspecified_unit_behaves_like_pa() {
    let no_inp = from_dynpress(fx(false, 12_340_000_000), Units::NoInp).unwrap();
    let pa = from_dynpress(fx(false, 12_340_000_000), Units::Pa).unwrap();
    assert_eq!(no_inp, pa);
}

#[test]
fn negative_pressure_is_rejected() {
    assert_eq!(
        from_dynpress(fx(true, 10_000_000), Units::Pa),
        Err(UconvError::NegativePressure)
    );
}

#[test]
fn values_that_do_not_fit_are_rejected() {
    assert_eq!(from_mach(fx(false, u64::MAX)), Err(UconvError::TooLarge));
    assert_eq!(from_vel(fx(false, u64::MAX)), Err(UconvError::TooLarge));
    assert_eq!(
        from_dynpress(fx(false, u64::MAX), Units::Psi),
        Err(UconvError::TooLarge)
    );
}

#[test]
fn mach_velocity_round_trip_is_exact() {
    let m = fx(false, 25_000_000); // Mach 2.5
    let (vel, q) = from_mach(m).unwrap();
    let (m2, q2) = from_vel(vel).unwrap();
    assert_eq!(m2, m);
    assert_eq!(q2, q);
}

#[test]
fn velocity_mach_round_trip_is_close() {
    let v = fx(false, 1_000_000_001); // 100.0000001 m/s
    let (mach, _q) = from_vel(v).unwrap();
    let (v2, _q2) = from_mach(mach).unwrap();
    let back = v2.scaled_mag();
    let orig = v.scaled_mag();
    assert!(back <= orig && orig < back + 343);
}

#[test]
fn pressure_round_trip_is_close() {
    let p = fx(false, 705_894_000_000); // 70589.4 Pa
    let (mach, _vel, _pa) = from_dynpress(p, Units::Pa).unwrap();
    let (_v2, q2) = from_mach(mach).unwrap();
    let back = q2.scaled_mag();
    let orig = p.scaled_mag();
    assert!(back <= orig);
    assert!(orig - back <= (2058 * 3_430_000_000 + 2) / 50_000_000 + 1);
}
