//! Instance-parameter parsing.
use mock_peer::utils::get_param;

fn params(entries: &[(&str, &str)]) -> Vec<(String, String)> {
    entries.iter().map(|(k, v)| (k.to_string(), v.to_string())).collect()
}

#[test]
fn get_param_reads_a_decimal_value() {
    let p = params(&[("ping_interval", "15"), ("vote_duration", "60")]);
    assert_eq!(get_param(&"ping_interval".to_string(), &p), Ok(15));
    assert_eq!(get_param(&"vote_duration".to_string(), &p), Ok(60));
    assert_eq!(
        get_param(&"zero".to_string(), &params(&[("zero", "0")])),
        Ok(0),
    );
    assert_eq!(
        get_param(&"max".to_string(), &params(&[("max", "18446744073709551615")])),
        Ok(u64::MAX),
    );
}

#[test]
fn get_param_rejects_a_missing_key_naming_it() {
    let p = params(&[("ping_interval", "15")]);
    let e = get_param(&"vote_duration".to_string(), &p).unwrap_err();
    assert_eq!(e, "vote_duration is not specified.".to_string());
}

#[test]
fn get_param_rejects_an_unparsable_value_naming_the_key() {
    let expected = "Failed to parse instance_param. key: k".to_string();
    assert_eq!(get_param(&"k".to_string(), &params(&[("k", "")])).unwrap_err(), expected);
    assert_eq!(get_param(&"k".to_string(), &params(&[("k", "12x")])).unwrap_err(), expected);
    assert_eq!(get_param(&"k".to_string(), &params(&[("k", "-4")])).unwrap_err(), expected);
    // One past the largest 64-bit value.
    assert_eq!(
        get_param(&"k".to_string(), &params(&[("k", "18446744073709551616")])).unwrap_err(),
        expected,
    );
}

#[test]
fn change_ip_params_read_all_four_durations() {
    let p = params(&[
        ("vote_duration", "60"),
        ("ping_interval", "15"),
        ("duration_before", "120"),
        ("duration_after", "180"),
    ]);
    let r = mock_peer::change_ip::params::Params::new(&p).unwrap();
    assert_eq!(r.vote_duration, 60);
    assert_eq!(r.ping_interval, 15);
    assert_eq!(r.duration_before, 120);
    assert_eq!(r.duration_after, 180);
    let incomplete = params(&[("vote_duration", "60")]);
    assert_eq!(
        mock_peer::change_ip::params::Params::new(&incomplete).err(),
        Some("ping_interval is not specified.".to_string()),
    );
}

#[test]
fn enr_update_params_read_the_interval() {
    let p = params(&[("ping_interval", "15")]);
    let r = mock_peer::enr_update::params::Params::new(&p).unwrap();
    assert_eq!(r.ping_interval, 15);
    assert_eq!(
        mock_peer::enr_update::params::Params::new(&params(&[])).err(),
        Some("ping_interval is not specified.".to_string()),
    );
}

#[test]
fn eclipse_scenario_marker_constructs() {
    let _ = mock_peer::eclipse::MonopolizingByIncomingNodes::new();
}
