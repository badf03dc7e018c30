use pw_api::riaa::{declick_enable_value, notch_filter_enabled, riaa_enable_value, subsonic_filter_value};

#[test]
fn riaa_subsonic_filter_reads_integer_or_defaults_to_off() {
    assert_eq!(subsonic_filter_value(Some(2)).filter, 2);
    assert_eq!(subsonic_filter_value(Some(-1)).filter, -1);
    assert_eq!(subsonic_filter_value(None).filter, 0);
}

#[test]
fn riaa_switch_defaults() {
    assert!(riaa_enable_value(None).enabled);
    assert!(riaa_enable_value(Some(true)).enabled);
    assert!(!riaa_enable_value(Some(false)).enabled);
    assert!(!declick_enable_value(None).enabled);
    assert!(declick_enable_value(Some(true)).enabled);
    assert!(!declick_enable_value(Some(false)).enabled);
    assert!(!notch_filter_enabled(None));
    assert!(notch_filter_enabled(Some(true)));
}
