use limestack_connector::codec::{decode_client_message, encode_server_message};
use limestack_connector::protocol::{ClientMessage, PrinterInfo, ServerMessage};

#[test]
fn decode_hello_ok() {
    let frame = br#"{"type":"hello","version":"1.0","origin":"https://app.limestack.io"}"#;
    match decode_client_message(frame) {
        Ok(ClientMessage::Hello { version, origin }) => {
            assert_eq!(version, b"1.0".to_vec());
            assert_eq!(origin, b"https://app.limestack.io".to_vec());
        }
        _ => panic!("expected Hello"),
    }
}

#[test]
fn decode_tolerates_field_order_and_whitespace() {
    let frame = b" { \"origin\" : \"http://localhost:5173\" , \"type\" : \"hello\" , \"version\" : \"2\" } ";
    match decode_client_message(frame) {
        Ok(ClientMessage::Hello { version, origin }) => {
            assert_eq!(version, b"2".to_vec());
            assert_eq!(origin, b"http://localhost:5173".to_vec());
        }
        _ => panic!("expected Hello"),
    }
}

#[test]
fn decode_get_printers_ok() {
    match decode_client_message(br#"{"type":"get_printers"}"#) {
        Ok(ClientMessage::GetPrinters) => {}
        _ => panic!("expected GetPrinters"),
    }
}

#[test]
fn decode_read_scale_ok() {
    match decode_client_message(br#"{"type":"read_scale"}"#) {
        Ok(ClientMessage::ReadScale) => {}
        _ => panic!("expected ReadScale"),
    }
}

#[test]
fn decode_print_ok() {
    let frame = br#"{"type":"print","requestId":"r1","printer":"p1","format":"pdf","data":"aGVsbG8=","options":{"copies":3,"paperSize":"4x6"}}"#;
    match decode_client_message(frame) {
        Ok(ClientMessage::Print { request_id, printer, format, data, options }) => {
            assert_eq!(request_id, b"r1".to_vec());
            assert_eq!(printer, b"p1".to_vec());
            assert_eq!(format, b"pdf".to_vec());
            assert_eq!(data, b"aGVsbG8=".to_vec());
            assert_eq!(options.copies, Some(3));
            assert_eq!(options.paper_size, Some(b"4x6".to_vec()));
        }
        _ => panic!("expected Print"),
    }
}

#[test]
fn decode_print_copies_omitted_is_none() {
    let frame = br#"{"type":"print","requestId":"r1","printer":"p1","format":"pdf","data":"aGVsbG8=","options":{}}"#;
    match decode_client_message(frame) {
        Ok(ClientMessage::Print { options, .. }) => {
            assert_eq!(options.copies, None);
            assert_eq!(options.paper_size, None);
        }
        _ => panic!("expected Print"),
    }
}

#[test]
fn decode_unknown_type_yields_structured_error() {
    match decode_client_message(br#"{"type":"bogus"}"#) {
        Err(e) => assert_eq!(e.reason, b"unknown message type".to_vec()),
        Ok(_) => panic!("expected an error"),
    }
}

#[test]
fn decode_missing_type_yields_error() {
    match decode_client_message(br#"{"version":"1"}"#) {
        Err(e) => assert_eq!(e.reason, b"missing required field".to_vec()),
        Ok(_) => panic!("expected an error"),
    }
}

#[test]
fn decode_missing_required_field_yields_error() {
    match decode_client_message(br#"{"type":"hello","version":"1"}"#) {
        Err(e) => assert_eq!(e.reason, b"missing required field".to_vec()),
        Ok(_) => panic!("expected an error"),
    }
}

#[test]
fn decode_wrong_field_type_yields_error() {
    match decode_client_message(br#"{"type":"hello","version":5,"origin":"x"}"#) {
        Err(e) => assert_eq!(e.reason, b"invalid field value".to_vec()),
        Ok(_) => panic!("expected an error"),
    }
}

#[test]
fn decode_non_object_yields_error() {
    match decode_client_message(b"[1,2]") {
        Err(e) => assert_eq!(e.reason, b"malformed JSON".to_vec()),
        Ok(_) => panic!("expected an error"),
    }
}

#[test]
fn decode_trailing_characters_yield_error() {
    match decode_client_message(br#"{"type":"get_printers"} x"#) {
        Err(e) => assert_eq!(e.reason, b"unexpected trailing characters".to_vec()),
        Ok(_) => panic!("expected an error"),
    }
}

#[test]
fn decode_duplicate_field_yields_error() {
    match decode_client_message(br#"{"type":"hello","version":"1","version":"2","origin":"x"}"#) {
        Err(e) => assert_eq!(e.reason, b"duplicate field".to_vec()),
        Ok(_) => panic!("expected an error"),
    }
}

#[test]
fn decode_copies_too_large_yields_error() {
    let frame = br#"{"type":"print","requestId":"r","printer":"p","format":"pdf","data":"","options":{"copies":4294967296}}"#;
    match decode_client_message(frame) {
        Err(e) => assert_eq!(e.reason, b"invalid field value".to_vec()),
        Ok(_) => panic!("expected an error"),
    }
}

#[test]
fn decode_copies_max_value_ok() {
    let frame = br#"{"type":"print","requestId":"r","printer":"p","format":"pdf","data":"","options":{"copies":4294967295}}"#;
    match decode_client_message(frame) {
        Ok(ClientMessage::Print { options, .. }) => assert_eq!(options.copies, Some(4294967295)),
        _ => panic!("expected Print"),
    }
}

#[test]
fn decode_string_escapes() {
    let frame = br#"{"type":"hello","version":"a\"b\\c\n","origin":"https://limestack.io"}"#;
    match decode_client_message(frame) {
        Ok(ClientMessage::Hello { version, .. }) => {
            assert_eq!(version, b"a\"b\\c\n".to_vec());
        }
        _ => panic!("expected Hello"),
    }
}

#[test]
fn decode_ignores_unknown_scalar_fields() {
    let frame = br#"{"type":"get_printers","extra":123,"flag":true,"note":"x","nothing":null}"#;
    match decode_client_message(frame) {
        Ok(ClientMessage::GetPrinters) => {}
        _ => panic!("expected GetPrinters"),
    }
}

#[test]
fn decode_empty_frame_yields_error() {
    match decode_client_message(b"") {
        Err(e) => assert_eq!(e.reason, b"malformed JSON".to_vec()),
        Ok(_) => panic!("expected an error"),
    }
}

#[test]
fn encode_error_message() {
    let m = ServerMessage::Error { message: b"oops".to_vec() };
    assert_eq!(encode_server_message(&m), br#"{"type":"error","message":"oops"}"#.to_vec());
}

#[test]
fn encode_escapes_quotes_backslashes_and_controls() {
    let m = ServerMessage::Error { message: b"a\"b\\c\n".to_vec() };
    assert_eq!(
        encode_server_message(&m),
        br#"{"type":"error","message":"a\"b\\c\u000a"}"#.to_vec()
    );
}

#[test]
fn encode_welcome() {
    let m = ServerMessage::Welcome {
        connector_version: b"0.1.0".to_vec(),
        capabilities: vec![b"print".to_vec()],
        printers: vec![PrinterInfo {
            id: b"Zebra_ZP450".to_vec(),
            name: b"Zebra ZP450".to_vec(),
            printer_type: b"thermal".to_vec(),
            status: b"ready".to_vec(),
            is_default: true,
        }],
    };
    let expected = br#"{"type":"welcome","connectorVersion":"0.1.0","capabilities":["print"],"printers":[{"id":"Zebra_ZP450","name":"Zebra ZP450","type":"thermal","status":"ready","isDefault":true}]}"#;
    assert_eq!(encode_server_message(&m), expected.to_vec());
}

#[test]
fn encode_printers_empty() {
    let m = ServerMessage::Printers { printers: vec![] };
    assert_eq!(
        encode_server_message(&m),
        br#"{"type":"printers","printers":[]}"#.to_vec()
    );
}

#[test]
fn encode_print_result_success_omits_error() {
    let m = ServerMessage::PrintResult {
        request_id: b"r1".to_vec(),
        success: true,
        message: Some(b"Label sent to p".to_vec()),
        error: None,
    };
    assert_eq!(
        encode_server_message(&m),
        br#"{"type":"print_result","requestId":"r1","success":true,"message":"Label sent to p"}"#
            .to_vec()
    );
}

#[test]
fn encode_print_result_failure_omits_message() {
    let m = ServerMessage::PrintResult {
        request_id: b"r2".to_vec(),
        success: false,
        message: None,
        error: Some(b"boom".to_vec()),
    };
    assert_eq!(
        encode_server_message(&m),
        br#"{"type":"print_result","requestId":"r2","success":false,"error":"boom"}"#.to_vec()
    );
}

#[test]
fn encode_scale_reading_negative_weight() {
    let m = ServerMessage::ScaleReading {
        weight: -5,
        unit: b"g".to_vec(),
        stable: false,
    };
    assert_eq!(
        encode_server_message(&m),
        br#"{"type":"scale_reading","weight":-5,"unit":"g","stable":false}"#.to_vec()
    );
}
