use bpm_core::config::{init_config, ConfigManager};
use bpm_core::hexutil::{decode_hex, encode_hex, encode_hex_upper};
use bpm_core::numtext::{parse_u64, u64_to_string};

#[test]
fn test_init_config() {
    let base = "/home/user".to_string();

    let config_manager = init_config(&base);

    assert_eq!(config_manager.get_path(), "/home/user/.bpm");
}

#[test]
fn test_get_db_path() {
    let config_path = "/home/user/.bpm".to_string();

    let config_manager = ConfigManager::from_path(&config_path);

    assert_eq!(config_manager.get_db_path(), "/home/user/.bpm/db");
}

#[test]
fn test_create_manager_from_path() {
    let expected_config_path = "/tmp/cfg".to_string();

    let config_manager = ConfigManager::from_path(&expected_config_path);

    assert_eq!(config_manager.get_path(), expected_config_path);
}

#[test]
fn test_hex_matches_reference() {
    let bytes = vec![0u8, 1, 15, 16, 127, 128, 255];

    assert_eq!(encode_hex(&bytes), hex::encode(&bytes));
    assert_eq!(encode_hex_upper(&bytes), hex::encode_upper(&bytes));
}

#[test]
fn test_hex_round_trip() {
    let bytes = vec![0u8, 1, 15, 16, 127, 128, 255];

    let text = encode_hex(&bytes);
    assert_eq!(decode_hex(&text).unwrap(), bytes);
}

#[test]
fn test_hex_rejects_bad_text() {
    assert!(decode_hex(&"abc".to_string()).is_none());
    assert!(decode_hex(&"zz".to_string()).is_none());
    assert_eq!(decode_hex(&"".to_string()).unwrap(), Vec::<u8>::new());
}

#[test]
fn test_u64_text_round_trip() {
    for n in [0u64, 1, 9, 10, 1704067200, u64::MAX] {
        let text = u64_to_string(n);
        assert_eq!(text, format!("{}", n));
        assert_eq!(parse_u64(&text).unwrap(), n);
    }
}

#[test]
fn test_parse_u64_rejects_bad_text() {
    assert!(parse_u64(&"".to_string()).is_none());
    assert!(parse_u64(&"12a".to_string()).is_none());
    assert!(parse_u64(&"99999999999999999999999".to_string()).is_none());
}
