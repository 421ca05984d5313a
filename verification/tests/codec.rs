use saunadge::compose_error;
use saunadge::compose_success;
use saunadge::from_json;
use saunadge::to_json;

#[test]
fn success_payload_has_the_documented_shape() {
    let resp = compose_success(String::from("42"));
    let text = to_json(&resp);
    let expected_prefix = "{\"isError\":false,\"schemaVersion\":1,\"label\":\"Sakatsu\",\
                           \"message\":\"42\",\"color\":\"0051e0\",\"cacheSeconds\":1800,\
                           \"logoSvg\":\"";
    assert!(text.starts_with(expected_prefix));
    assert!(text.ends_with("\"}"));
}

#[test]
fn error_payload_has_the_documented_shape() {
    let text = to_json(&compose_error());
    assert!(text.starts_with(
        "{\"isError\":true,\"schemaVersion\":1,\"label\":\"Sakatsu\",\"message\":\"error\","
    ));
}

#[test]
fn payload_is_valid_json_with_exact_fields() {
    let resp = compose_success(String::from("42"));
    let text = to_json(&resp);
    let value: serde_json::Value = serde_json::from_str(&text).unwrap();
    assert_eq!(value["isError"].as_bool(), Some(false));
    assert_eq!(value["schemaVersion"].as_u64(), Some(1));
    assert_eq!(value["label"].as_str(), Some("Sakatsu"));
    assert_eq!(value["message"].as_str(), Some("42"));
    assert_eq!(value["color"].as_str(), Some("0051e0"));
    assert_eq!(value["cacheSeconds"].as_u64(), Some(1800));
    assert_eq!(value["logoSvg"].as_str(), Some(resp.logo_svg.as_str()));
}

#[test]
fn escaped_message_survives_serde_parsing() {
    let message = "he said \"42\\1800\"\n\u{1} end";
    let resp = compose_success(String::from(message));
    let text = to_json(&resp);
    let value: serde_json::Value = serde_json::from_str(&text).unwrap();
    assert_eq!(value["message"].as_str(), Some(message));
}

#[test]
fn round_trip_preserves_a_success_response() {
    let resp = compose_success(String::from("42"));
    let back = from_json(&to_json(&resp)).unwrap();
    assert_eq!(back.is_error, resp.is_error);
    assert_eq!(back.schema_version, resp.schema_version);
    assert_eq!(back.label, resp.label);
    assert_eq!(back.message, resp.message);
    assert_eq!(back.color, resp.color);
    assert_eq!(back.cache_seconds, resp.cache_seconds);
    assert_eq!(back.logo_svg, resp.logo_svg);
}

#[test]
fn round_trip_preserves_an_error_response() {
    let resp = compose_error();
    let back = from_json(&to_json(&resp)).unwrap();
    assert!(back.is_error);
    assert_eq!(back.message, "error");
    assert_eq!(back.logo_svg, resp.logo_svg);
}

#[test]
fn round_trip_preserves_awkward_messages() {
    let messages = [
        "",
        "\"",
        "\\",
        "\\u0000",
        "\n\r\t",
        "\u{0}\u{1f}\u{20}",
        "a \"quoted\" \\ backslash",
    ];
    for message in messages {
        let resp = compose_success(String::from(message));
        let back = from_json(&to_json(&resp)).unwrap();
        assert_eq!(back.message, message);
        assert!(!back.is_error);
    }
}

#[test]
fn garbage_is_rejected() {
    assert!(from_json("").is_none());
    assert!(from_json("{}").is_none());
    assert!(from_json("{\"isError\":false}").is_none());
    assert!(from_json("not json at all").is_none());
}

#[test]
fn altered_fixed_fields_are_rejected() {
    let text = to_json(&compose_success(String::from("42")));
    let wrong_label = text.replace("Sakatsu", "Sakatsi");
    assert!(from_json(&wrong_label).is_none());
    let wrong_color = text.replace("0051e0", "0051e1");
    assert!(from_json(&wrong_color).is_none());
    let truncated = &text[..text.len() - 1];
    assert!(from_json(truncated).is_none());
    let trailing = format!("{} ", text);
    assert!(from_json(&trailing).is_none());
}

#[test]
fn non_canonical_escapes_are_rejected() {
    let text = to_json(&compose_success(String::from("\n")));
    assert!(text.contains("\\u000a"));
    assert!(from_json(&text).is_some());
    let upper = text.replace("\\u000a", "\\u000A");
    assert!(from_json(&upper).is_none());
    let letter = text.replace("\\u000a", "\\u0041");
    assert!(from_json(&letter).is_none());
}
