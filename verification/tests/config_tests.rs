use speech_server::config::{parse_bool, parse_i32, Config};

#[test]
fn parse_i32_reads_decimal_numbers() {
    assert_eq!(parse_i32("4"), Some(4));
    assert_eq!(parse_i32("+17"), Some(17));
    assert_eq!(parse_i32("-3"), Some(-3));
    assert_eq!(parse_i32("007"), Some(7));
    assert_eq!(parse_i32("2147483647"), Some(i32::MAX));
    assert_eq!(parse_i32("-2147483648"), Some(i32::MIN));
}

#[test]
fn parse_i32_refuses_what_std_refuses() {
    for s in ["", "+", "-", "1a", " 1", "1 ", "2147483648", "-2147483649", "99999999999999999999", "--1", "+-1", "1.0"] {
        assert_eq!(parse_i32(s), None, "{:?}", s);
        assert!(s.parse::<i32>().is_err());
    }
}

#[test]
fn parse_i32_agrees_with_std() {
    for s in ["0", "-0", "+0", "12", "-12", "65536", "-2147483647", "2147483646"] {
        assert_eq!(parse_i32(s), s.parse::<i32>().ok(), "{:?}", s);
    }
}

#[test]
fn parse_bool_reads_true_and_false_only() {
    assert_eq!(parse_bool("true"), Some(true));
    assert_eq!(parse_bool("false"), Some(false));
    assert_eq!(parse_bool("True"), None);
    assert_eq!(parse_bool("1"), None);
    assert_eq!(parse_bool(""), None);
}

#[test]
fn settings_fall_back_to_defaults() {
    let c = Config::from_settings(None, None, None, None, None, None);
    assert_eq!(c.host, "0.0.0.0");
    assert_eq!(c.port, "3078");
    assert_eq!(c.model, "ggml-small.en.bin");
    assert_eq!(c.threads, 4);
    assert!(!c.use_gpu);
    assert_eq!(c.gpu_device, 0);
}

#[test]
fn settings_take_given_values() {
    let c = Config::from_settings(
        Some("127.0.0.1".to_string()),
        Some("8080".to_string()),
        Some("ggml-base.bin".to_string()),
        Some("8".to_string()),
        Some("true".to_string()),
        Some("1".to_string()),
    );
    assert_eq!(c.host, "127.0.0.1");
    assert_eq!(c.port, "8080");
    assert_eq!(c.model, "ggml-base.bin");
    assert_eq!(c.threads, 8);
    assert!(c.use_gpu);
    assert_eq!(c.gpu_device, 1);
}

#[test]
fn unreadable_settings_are_detected() {
    assert!(Config::settings_readable(&None, &None, &None));
    assert!(!Config::settings_readable(&Some("four".to_string()), &None, &None));
    assert!(!Config::settings_readable(&None, &Some("yes".to_string()), &None));
    assert!(!Config::settings_readable(&None, &None, &Some("".to_string())));
}
