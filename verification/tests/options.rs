use rdkafka_admin::options::{timeout_to_ms, AdminOptionSetting, AdminOptions, Timeout};

#[test]
fn new_options_give_no_settings() {
    assert_eq!(AdminOptions::new().to_native(), vec![]);
}

#[test]
fn settings_come_in_fixed_order() {
    let opts = AdminOptions::new()
        .broker_id(Some(7))
        .validate_only(true)
        .operation_timeout(Some(Timeout::from_secs(3)))
        .request_timeout(Some(Timeout::from_millis(1500)));
    assert_eq!(
        opts.to_native(),
        vec![
            AdminOptionSetting::RequestTimeout(1500),
            AdminOptionSetting::OperationTimeout(3000),
            AdminOptionSetting::ValidateOnly,
            AdminOptionSetting::Broker(7),
        ]
    );
}

#[test]
fn setters_only_touch_their_own_option() {
    let opts = AdminOptions::new()
        .validate_only(true)
        .broker_id(Some(1))
        .broker_id(None)
        .validate_only(false)
        .request_timeout(Some(Timeout::from_secs(1)));
    assert_eq!(opts.to_native(), vec![AdminOptionSetting::RequestTimeout(1000)]);
}

#[test]
fn later_setting_overrides_earlier_one() {
    let opts = AdminOptions::new()
        .operation_timeout(Some(Timeout::from_secs(1)))
        .operation_timeout(Some(Timeout::from_millis(250)));
    assert_eq!(opts.to_native(), vec![AdminOptionSetting::OperationTimeout(250)]);
}

#[test]
fn missing_timeout_is_minus_one() {
    assert_eq!(timeout_to_ms(None), -1);
}

#[test]
fn timeout_is_cut_to_whole_milliseconds() {
    assert_eq!(timeout_to_ms(Some(Timeout::new(2, 999_999))), 2000);
    assert_eq!(timeout_to_ms(Some(Timeout::new(0, 1_000_000))), 1);
    assert_eq!(timeout_to_ms(Some(Timeout::from_millis(0))), 0);
}

#[test]
fn timeout_nanoseconds_carry_into_seconds() {
    let t = Timeout::new(1, 2_500_000_000);
    assert_eq!(t.as_secs(), 3);
    assert_eq!(t.subsec_nanos(), 500_000_000);
    assert_eq!(timeout_to_ms(Some(t)), 3500);
}

#[test]
fn from_millis_splits_seconds() {
    let t = Timeout::from_millis(12_345);
    assert_eq!(t.as_secs(), 12);
    assert_eq!(t.subsec_nanos(), 345_000_000);
}

#[test]
fn huge_timeout_wraps_to_32_bits() {
    // 2^32 + 5 milliseconds keep the low 32 bits only.
    let t = Timeout::from_millis((1u64 << 32) + 5);
    assert_eq!(timeout_to_ms(Some(t)), 5);
    let t = Timeout::from_millis(2_147_483_648);
    assert_eq!(timeout_to_ms(Some(t)), i32::MIN);
}
