use offloadmq::config::{parse_port, split_keys, AppConfig};
use offloadmq::error::AppError;
use offloadmq::schema::TaskId;
use offloadmq::utils::{chars_of, leading_chars, time_sortable_uid, url_decode, url_encode};

#[test]
fn url_encode_leaves_unreserved_characters() {
    assert_eq!(url_encode("AZaz09-._~"), "AZaz09-._~");
}

#[test]
fn url_encode_escapes_everything_else() {
    assert_eq!(url_encode("a b"), "a%20b");
    assert_eq!(url_encode("LLM::mistral"), "LLM%3A%3Amistral");
    assert_eq!(url_encode("a/b|c"), "a%2Fb%7Cc");
    assert_eq!(url_encode("é"), "%C3%A9");
    assert_eq!(url_encode(""), "");
    assert_eq!(url_encode("\u{0}\u{f}"), "%00%0F");
}

#[test]
fn url_decode_reads_escapes_and_plus() {
    assert_eq!(url_decode("a%20b").unwrap(), "a b");
    assert_eq!(url_decode("a+b").unwrap(), "a b");
    assert_eq!(url_decode("LLM%3A%3Amistral").unwrap(), "LLM::mistral");
    assert_eq!(url_decode("%c3%a9").unwrap(), "é");
    assert_eq!(url_decode("é").unwrap(), "é");
    assert_eq!(url_decode("").unwrap(), "");
}

#[test]
fn url_decode_accepts_a_plus_sign_before_a_single_digit() {
    assert_eq!(url_decode("%+a").unwrap(), "\n");
}

#[test]
fn url_decode_rejects_malformed_escapes() {
    assert!(matches!(url_decode("%"), Err(AppError::BadRequest(_))));
    assert!(matches!(url_decode("%2"), Err(AppError::BadRequest(_))));
    assert!(matches!(url_decode("%zz"), Err(AppError::BadRequest(_))));
    assert!(matches!(url_decode("%-1"), Err(AppError::BadRequest(_))));
    assert!(matches!(url_decode("%é"), Err(AppError::BadRequest(_))));
}

#[test]
fn url_decode_rejects_bytes_that_are_not_utf8() {
    assert!(matches!(url_decode("%ff"), Err(AppError::BadRequest(_))));
    assert!(matches!(url_decode("%c3"), Err(AppError::BadRequest(_))));
}

#[test]
fn url_decode_undoes_url_encode() {
    for text in ["", "plain", "a b+c", "LLM::mistral/7b", "naïve ☃ 𝄞", "100%", "x|y"] {
        assert_eq!(url_decode(&url_encode(text)).unwrap(), text);
    }
}

#[test]
fn time_sortable_uid_has_the_shape_of_a_ulid() {
    let uid = time_sortable_uid();
    assert_eq!(uid.chars().count(), 26);
    assert!(uid.chars().all(|c| c.is_ascii_digit() || c.is_ascii_uppercase()));
    assert!(ulid::Ulid::from_string(&uid).is_ok());
}

#[test]
fn time_sortable_uids_differ() {
    assert_ne!(time_sortable_uid(), time_sortable_uid());
}

#[test]
fn chars_of_lists_the_characters() {
    assert_eq!(chars_of("aé☃"), vec!['a', 'é', '☃']);
    assert_eq!(chars_of(""), Vec::<char>::new());
}

#[test]
fn leading_chars_takes_whole_characters() {
    assert_eq!(leading_chars("01ARZ3NDEKTSV4RRFFQ69G5FAV", 8), "01ARZ3ND");
    assert_eq!(leading_chars("short", 8), "short");
    assert_eq!(leading_chars("ééééééééé", 8), "éééééééé");
    assert_eq!(leading_chars("", 8), "");
}

#[test]
fn task_id_text_form_joins_with_a_slash() {
    let id = TaskId { cap: "echo".to_string(), id: "01ARZ3NDEKTSV4RRFFQ69G5FAV".to_string() };
    assert_eq!(id.to_string(), "echo/01ARZ3NDEKTSV4RRFFQ69G5FAV");
}

#[test]
fn task_id_new_with_cap_keeps_the_capability() {
    let id = TaskId::new_with_cap("echo".to_string());
    assert_eq!(id.cap, "echo");
    assert_eq!(id.id.len(), 26);
}

#[test]
fn task_id_from_url_decodes_both_segments() {
    let id = TaskId::from_url("01ARZ%2FX".to_string(), "LLM%3A%3Amistral".to_string()).unwrap();
    assert_eq!(id.cap, "LLM::mistral");
    assert_eq!(id.id, "01ARZ/X");
    assert!(matches!(
        TaskId::from_url("ok".to_string(), "%zz".to_string()),
        Err(AppError::BadRequest(_))
    ));
    assert!(matches!(
        TaskId::from_url("%".to_string(), "ok".to_string()),
        Err(AppError::BadRequest(_))
    ));
}

#[test]
fn task_id_same_compares_both_parts() {
    let a = TaskId { cap: "c".to_string(), id: "1".to_string() };
    let b = TaskId { cap: "c".to_string(), id: "1".to_string() };
    let c = TaskId { cap: "c".to_string(), id: "2".to_string() };
    let d = TaskId { cap: "d".to_string(), id: "1".to_string() };
    assert!(a.same(&b));
    assert!(!a.same(&c));
    assert!(!a.same(&d));
}

#[test]
fn split_keys_drops_empty_parts() {
    assert_eq!(split_keys("a:b:c"), vec!["a", "b", "c"]);
    assert_eq!(split_keys("::a::b:"), vec!["a", "b"]);
    assert_eq!(split_keys(""), Vec::<String>::new());
    assert_eq!(split_keys(":"), Vec::<String>::new());
    assert_eq!(split_keys("single"), vec!["single"]);
}

#[test]
fn parse_port_reads_decimal_numbers() {
    assert_eq!(parse_port("3069"), Some(3069));
    assert_eq!(parse_port("0"), Some(0));
    assert_eq!(parse_port("65535"), Some(65535));
    assert_eq!(parse_port("+80"), Some(80));
    assert_eq!(parse_port("0080"), Some(80));
}

#[test]
fn parse_port_rejects_what_is_not_a_port() {
    assert_eq!(parse_port(""), None);
    assert_eq!(parse_port("+"), None);
    assert_eq!(parse_port("65536"), None);
    assert_eq!(parse_port("99999999999999999999"), None);
    assert_eq!(parse_port("-1"), None);
    assert_eq!(parse_port("80a"), None);
    assert_eq!(parse_port(" 80"), None);
}

#[test]
fn parse_port_agrees_with_the_standard_parser() {
    for text in ["1", "+1", "65535", "65536", "", "+", "x", "12x", "000000001", "٣"] {
        assert_eq!(parse_port(text), text.parse::<u16>().ok());
    }
}

#[test]
fn config_defaults_apply_where_nothing_is_set() {
    let config = AppConfig::from_env(None, None, None, None, None, None, None).unwrap();
    assert_eq!(config.jwt_secret, "default_jwt_secret_change_in_production");
    assert_eq!(config.database_root_path, "./data");
    assert!(config.agent_api_keys.is_empty());
    assert!(config.client_api_keys.is_empty());
    assert_eq!(config.host, "0.0.0.0");
    assert_eq!(config.port, 3069);
    assert_eq!(config.management_token, None);
}

#[test]
fn config_takes_what_is_set() {
    let config = AppConfig::from_env(
        Some("s3cret".to_string()),
        Some("/var/lib/mq".to_string()),
        Some("a1:a2".to_string()),
        Some("c1::c2:".to_string()),
        Some("127.0.0.1".to_string()),
        Some("8080".to_string()),
        Some("mgmt".to_string()),
    )
    .unwrap();
    assert_eq!(config.jwt_secret, "s3cret");
    assert_eq!(config.database_root_path, "/var/lib/mq");
    assert_eq!(config.agent_api_keys, vec!["a1", "a2"]);
    assert_eq!(config.client_api_keys, vec!["c1", "c2"]);
    assert_eq!(config.host, "127.0.0.1");
    assert_eq!(config.port, 8080);
    assert_eq!(config.management_token, Some("mgmt".to_string()));
}

#[test]
fn config_rejects_a_bad_port() {
    let r = AppConfig::from_env(None, None, None, None, None, Some("http".to_string()), None);
    assert!(matches!(r, Err(AppError::Parse(_))));
}
