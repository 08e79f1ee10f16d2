use magnetar_data::timestep::parse_timestep;

#[test]
fn combined_units_add_up() {
    assert_eq!(parse_timestep("1d6h"), Some(108_000));
    assert_eq!(parse_timestep("90m"), Some(5_400));
    assert_eq!(parse_timestep("1d1h1m1s"), Some(90_061));
}

#[test]
fn both_letter_cases_are_accepted() {
    assert_eq!(parse_timestep("10D2H"), Some(871_200));
    assert_eq!(parse_timestep("3S"), Some(3));
    assert_eq!(parse_timestep("2M"), Some(120));
}

#[test]
fn empty_input_is_zero_seconds() {
    assert_eq!(parse_timestep(""), Some(0));
}

#[test]
fn malformed_inputs_are_rejected() {
    assert_eq!(parse_timestep("d"), None);
    assert_eq!(parse_timestep("5"), None);
    assert_eq!(parse_timestep("5w"), None);
    assert_eq!(parse_timestep("1d6"), None);
    assert_eq!(parse_timestep("h1"), None);
    assert_eq!(parse_timestep("1.5h"), None);
}

#[test]
fn values_that_overflow_are_rejected() {
    assert_eq!(parse_timestep("99999999999999999999s"), None);
    assert_eq!(parse_timestep("999999999999999999d"), None);
    assert_eq!(parse_timestep("18446744073709551615s"), Some(u64::MAX));
}
