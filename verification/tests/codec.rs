use brest::Brest;

#[test]
fn test_success_serialization() {
    let brest = Brest::<String, u32>::success("test data".to_string());
    let json = brest.to_json();
    assert_eq!(json, r#"{"type":"success","data":"test data"}"#);
}

#[test]
fn test_success_unit_serialization() {
    let brest = Brest::<(), u32>::success(());
    let json = brest.to_json();
    assert_eq!(json, r#"{"type":"success","data":null}"#);
}

#[test]
fn test_error_serialization() {
    let brest = Brest::<(), u32>::error("error message");
    let json = brest.to_json();
    assert_eq!(json, r#"{"type":"error","message":"error message"}"#);
}

#[test]
fn test_error_code_serialization() {
    let brest = Brest::<(), u32>::error_code("error message", 500);
    let json = brest.to_json();
    assert_eq!(json, r#"{"type":"error","message":"error message","code":500}"#);
}

#[test]
fn test_fail_serialization() {
    let brest = Brest::<(), u32>::fail("fail message");
    let json = brest.to_json();
    assert_eq!(json, r#"{"type":"fail","message":"fail message"}"#);
}

#[test]
fn test_fail_code_serialization() {
    let brest = Brest::<(), u32>::fail_code("fail message", 400);
    let json = brest.to_json();
    assert_eq!(json, r#"{"type":"fail","message":"fail message","code":400}"#);
}

#[test]
fn test_success_deserialization() {
    let json = r#"{"type":"success","data":"test data"}"#;
    let brest: Brest<String, u32> = Brest::from_json(json).unwrap();
    assert!(brest.is_success());
}

#[test]
fn test_error_deserialization() {
    let json = r#"{"type":"error","message":"error message"}"#;
    let brest: Brest<(), u32> = Brest::from_json(json).unwrap();
    assert!(brest.is_error());
}

#[test]
fn test_error_code_deserialization() {
    let json = r#"{"type":"error","message":"error message","code":500}"#;
    let brest: Brest<(), u32> = Brest::from_json(json).unwrap();
    assert!(brest.is_error());
}

#[test]
fn test_fail_deserialization() {
    let json = r#"{"type":"fail","message":"fail message"}"#;
    let brest: Brest<(), u32> = Brest::from_json(json).unwrap();
    assert!(brest.is_fail());
}

#[test]
fn test_fail_code_deserialization() {
    let json = r#"{"type":"fail","message":"fail message","code":400}"#;
    let brest: Brest<(), u32> = Brest::from_json(json).unwrap();
    assert!(brest.is_fail());
}

#[test]
fn test_brest_response_success_serialization() {
    let brest = Brest::<String, u32>::success("test".to_string());
    let json = brest.to_json();
    assert_eq!(json, r#"{"type":"success","data":"test"}"#);
}

#[test]
fn test_brest_response_success_unit_serialization() {
    let brest = Brest::<(), u32>::success(());
    let json = brest.to_json();
    assert_eq!(json, r#"{"type":"success","data":null}"#);
}

#[test]
fn test_brest_response_error_serialization() {
    let brest = Brest::<(), u32>::error_code("error", 500);
    let json = brest.to_json();
    assert_eq!(json, r#"{"type":"error","message":"error","code":500}"#);
}

#[test]
fn test_brest_response_fail_serialization() {
    let brest = Brest::<(), u32>::fail_code("fail", 400);
    let json = brest.to_json();
    assert_eq!(json, r#"{"type":"fail","message":"fail","code":400}"#);
}

#[test]
fn test_literal_success_ok() {
    let brest = Brest::<String, u32>::success("ok".to_string());
    assert_eq!(brest.to_json(), r#"{"type":"success","data":"ok"}"#);
}

#[test]
fn test_literal_error_code_bad() {
    let brest = Brest::<(), u32>::error_code("bad", 42);
    assert_eq!(brest.to_json(), r#"{"type":"error","message":"bad","code":42}"#);
}

#[test]
fn test_literal_fail_missing_field() {
    let brest = Brest::<(), u32>::fail("missing field");
    assert_eq!(brest.to_json(), r#"{"type":"fail","message":"missing field"}"#);
}

#[test]
fn test_round_trip_success() {
    let brest = Brest::<String, u32>::success("round trip".to_string());
    let back: Brest<String, u32> = Brest::from_json(&brest.to_json()).unwrap();
    assert_eq!(back, brest);
}

#[test]
fn test_round_trip_success_unit() {
    let brest = Brest::<(), u32>::success(());
    let back: Brest<(), u32> = Brest::from_json(&brest.to_json()).unwrap();
    assert_eq!(back, brest);
}

#[test]
fn test_round_trip_error_without_code() {
    let brest = Brest::<(), u32>::error("a server fault");
    let back: Brest<(), u32> = Brest::from_json(&brest.to_json()).unwrap();
    assert_eq!(back, brest);
}

#[test]
fn test_round_trip_error_with_code() {
    let brest = Brest::<(), u32>::error_code("a server fault", 42);
    let back: Brest<(), u32> = Brest::from_json(&brest.to_json()).unwrap();
    assert_eq!(back, brest);
}

#[test]
fn test_round_trip_fail_without_code() {
    let brest = Brest::<(), u32>::fail("bad input");
    let back: Brest<(), u32> = Brest::from_json(&brest.to_json()).unwrap();
    assert_eq!(back, brest);
}

#[test]
fn test_round_trip_fail_with_code() {
    let brest = Brest::<(), u32>::fail_code("bad input", 7);
    let back: Brest<(), u32> = Brest::from_json(&brest.to_json()).unwrap();
    assert_eq!(back, brest);
}

#[test]
fn test_escaped_message_serialization() {
    let brest = Brest::<(), u32>::error("say \"hi\"\\\n");
    assert_eq!(brest.to_json(), "{\"type\":\"error\",\"message\":\"say \\\"hi\\\"\\\\\\n\"}");
}

#[test]
fn test_escaped_message_round_trip() {
    let brest = Brest::<(), u32>::fail("tab\there \"quoted\" back\\slash\r\nand a \u{1} control");
    let back: Brest<(), u32> = Brest::from_json(&brest.to_json()).unwrap();
    assert_eq!(back, brest);
}

#[test]
fn test_control_char_serialization() {
    let brest = Brest::<(), u32>::error("a\u{1}b");
    assert_eq!(brest.to_json(), r#"{"type":"error","message":"a\u0001b"}"#);
}

#[test]
fn test_code_boundary_round_trip() {
    let brest = Brest::<(), u32>::error_code("big", 4294967295);
    let json = brest.to_json();
    assert_eq!(json, r#"{"type":"error","message":"big","code":4294967295}"#);
    let back: Brest<(), u32> = Brest::from_json(&json).unwrap();
    assert_eq!(back, brest);
}

#[test]
fn test_deserialize_rejects_malformed() {
    assert!(Brest::<String, u32>::from_json("").is_none());
    assert!(Brest::<String, u32>::from_json("{}").is_none());
    assert!(Brest::<String, u32>::from_json(r#"{"type":"success"}"#).is_none());
    assert!(Brest::<(), u32>::from_json(r#"{"type":"error"}"#).is_none());
    assert!(Brest::<(), u32>::from_json(r#"{"type":"nonsense","data":null}"#).is_none());
    assert!(Brest::<(), u32>::from_json(r#"{"type":"error","message":"m"} "#).is_none());
    assert!(Brest::<(), u32>::from_json(r#"{"type":"error","message":"m","code":007}"#).is_none());
    assert!(Brest::<(), u32>::from_json(r#"{"type":"error","message":"m","code":4294967296}"#)
        .is_none());
    assert!(Brest::<(), u32>::from_json(r#"{"type":"error","message":"unterminated}"#).is_none());
    assert!(Brest::<(), u32>::from_json(r#"{"type":"error","message":"bad \q escape"}"#).is_none());
    assert!(Brest::<String, u32>::from_json(r#"{"type":"success","data":null}"#).is_none());
}

#[test]
fn test_deserialized_status_is_default() {
    let ok: Brest<(), u32> = Brest::from_json(r#"{"type":"success","data":null}"#).unwrap();
    assert_eq!(ok.status(), 200);
    let err: Brest<(), u32> = Brest::from_json(r#"{"type":"error","message":"m"}"#).unwrap();
    assert_eq!(err.status(), 500);
    let fail: Brest<(), u32> = Brest::from_json(r#"{"type":"fail","message":"m"}"#).unwrap();
    assert_eq!(fail.status(), 400);
}

#[test]
fn test_to_response_parts() {
    let brest = Brest::<String, u32>::fail_status("nope", 422);
    let (status, body) = brest.to_response();
    assert_eq!(status, 422);
    assert_eq!(body, r#"{"type":"fail","message":"nope"}"#);
}

#[test]
fn test_round_trip_empty_message() {
    let brest = Brest::<(), u32>::error("");
    assert_eq!(brest.to_json(), r#"{"type":"error","message":""}"#);
    let back: Brest<(), u32> = Brest::from_json(&brest.to_json()).unwrap();
    assert_eq!(back, brest);
}

#[test]
fn test_round_trip_empty_payload_string() {
    let brest = Brest::<String, u32>::success("".to_string());
    assert_eq!(brest.to_json(), r#"{"type":"success","data":""}"#);
    let back: Brest<String, u32> = Brest::from_json(&brest.to_json()).unwrap();
    assert_eq!(back, brest);
}

#[test]
fn test_round_trip_code_zero() {
    let brest = Brest::<(), u32>::fail_code("z", 0);
    assert_eq!(brest.to_json(), r#"{"type":"fail","message":"z","code":0}"#);
    let back: Brest<(), u32> = Brest::from_json(&brest.to_json()).unwrap();
    assert_eq!(back, brest);
}

#[test]
fn test_round_trip_multibyte_text() {
    let brest = Brest::<String, u32>::success("caf\u{e9} \u{1f980} text".to_string());
    let back: Brest<String, u32> = Brest::from_json(&brest.to_json()).unwrap();
    assert_eq!(back, brest);
}
