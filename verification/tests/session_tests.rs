use limestack_connector::protocol::{ClientMessage, PrintOptions, PrinterInfo, ServerMessage};
use limestack_connector::session::{
    dispatch, decode_error_reply, print_result_done, print_result_not_found, welcome_message,
    Action, ConnectorSession,
};
use limestack_connector::protocol::DecodeError;

#[test]
fn unauthenticated_get_printers_rejected() {
    let mut s = ConnectorSession::new();
    let a = dispatch(&mut s, ClientMessage::GetPrinters);
    match a {
        Action::Reply(ServerMessage::Error { message }) => {
            assert_eq!(message, b"Not authenticated".to_vec());
        }
        _ => panic!("expected an error reply"),
    }
    assert!(!s.authenticated);
    assert!(s.origin.is_none());
}

#[test]
fn unauthenticated_print_rejected() {
    let mut s = ConnectorSession::new();
    let msg = ClientMessage::Print {
        request_id: b"r".to_vec(),
        printer: b"p".to_vec(),
        format: b"pdf".to_vec(),
        data: b"".to_vec(),
        options: PrintOptions { copies: None, paper_size: None },
    };
    match dispatch(&mut s, msg) {
        Action::Reply(ServerMessage::Error { message }) => {
            assert_eq!(message, b"Not authenticated".to_vec());
        }
        _ => panic!("expected an error reply"),
    }
    assert!(!s.authenticated);
}

#[test]
fn unauthenticated_read_scale_rejected() {
    let mut s = ConnectorSession::new();
    match dispatch(&mut s, ClientMessage::ReadScale) {
        Action::Reply(ServerMessage::Error { message }) => {
            assert_eq!(message, b"Not authenticated".to_vec());
        }
        _ => panic!("expected an error reply"),
    }
    assert!(!s.authenticated);
}

#[test]
fn hello_with_allowed_prefix_authenticates() {
    let mut s = ConnectorSession::new();
    let msg = ClientMessage::Hello {
        version: b"1".to_vec(),
        origin: b"https://app.limestack.io/x".to_vec(),
    };
    match dispatch(&mut s, msg) {
        Action::ReplyWelcome => {}
        _ => panic!("expected a welcome"),
    }
    assert!(s.authenticated);
    assert_eq!(s.origin, Some(b"https://app.limestack.io/x".to_vec()));
}

#[test]
fn hello_with_disallowed_origin_rejected() {
    let mut s = ConnectorSession::new();
    let msg = ClientMessage::Hello {
        version: b"1".to_vec(),
        origin: b"https://evil.example".to_vec(),
    };
    match dispatch(&mut s, msg) {
        Action::Reply(ServerMessage::Error { message }) => {
            assert_eq!(message, b"Origin not allowed".to_vec());
        }
        _ => panic!("expected an error reply"),
    }
    assert!(!s.authenticated);
    assert!(s.origin.is_none());
}

#[test]
fn repeated_hello_revalidates_the_origin() {
    let mut s = ConnectorSession::new();
    dispatch(&mut s, ClientMessage::Hello {
        version: b"1".to_vec(),
        origin: b"https://app.limestack.io".to_vec(),
    });
    assert!(s.authenticated);
    // A fresh Hello runs the same check again and is answered on its own.
    match dispatch(&mut s, ClientMessage::Hello {
        version: b"1".to_vec(),
        origin: b"https://evil.example".to_vec(),
    }) {
        Action::Reply(ServerMessage::Error { message }) => {
            assert_eq!(message, b"Origin not allowed".to_vec());
        }
        _ => panic!("expected an error reply"),
    }
    assert!(s.authenticated);
    match dispatch(&mut s, ClientMessage::Hello {
        version: b"1".to_vec(),
        origin: b"https://limestack.io/app".to_vec(),
    }) {
        Action::ReplyWelcome => {}
        _ => panic!("expected a welcome"),
    }
    assert_eq!(s.origin, Some(b"https://limestack.io/app".to_vec()));
}

#[test]
fn read_scale_after_auth_is_unimplemented() {
    let mut s = ConnectorSession::new();
    dispatch(&mut s, ClientMessage::Hello {
        version: b"1".to_vec(),
        origin: b"http://localhost:4173".to_vec(),
    });
    match dispatch(&mut s, ClientMessage::ReadScale) {
        Action::Reply(ServerMessage::Error { message }) => {
            assert_eq!(message, b"Scale reading not yet implemented".to_vec());
        }
        _ => panic!("expected an error reply"),
    }
    assert!(s.authenticated);
}

#[test]
fn authenticated_get_printers_asks_for_snapshot() {
    let mut s = ConnectorSession::new();
    dispatch(&mut s, ClientMessage::Hello {
        version: b"1".to_vec(),
        origin: b"https://limestack.io".to_vec(),
    });
    match dispatch(&mut s, ClientMessage::GetPrinters) {
        Action::ReplyPrinters => {}
        _ => panic!("expected a printers reply"),
    }
}

#[test]
fn copies_omitted_means_one() {
    let mut s = ConnectorSession::new();
    dispatch(&mut s, ClientMessage::Hello {
        version: b"1".to_vec(),
        origin: b"https://app.limestack.io".to_vec(),
    });
    let msg = ClientMessage::Print {
        request_id: b"r".to_vec(),
        printer: b"p".to_vec(),
        format: b"pdf".to_vec(),
        data: b"QQ==".to_vec(),
        options: PrintOptions { copies: None, paper_size: None },
    };
    match dispatch(&mut s, msg) {
        Action::DoPrint { request_id, printer, format, data, copies } => {
            assert_eq!(request_id, b"r".to_vec());
            assert_eq!(printer, b"p".to_vec());
            assert_eq!(format, b"pdf".to_vec());
            assert_eq!(data, b"QQ==".to_vec());
            assert_eq!(copies, 1);
        }
        _ => panic!("expected a print action"),
    }
}

#[test]
fn copies_explicit_passes_through() {
    let mut s = ConnectorSession::new();
    dispatch(&mut s, ClientMessage::Hello {
        version: b"1".to_vec(),
        origin: b"https://app.limestack.io".to_vec(),
    });
    let msg = ClientMessage::Print {
        request_id: b"r".to_vec(),
        printer: b"p".to_vec(),
        format: b"pdf".to_vec(),
        data: b"QQ==".to_vec(),
        options: PrintOptions { copies: Some(7), paper_size: None },
    };
    match dispatch(&mut s, msg) {
        Action::DoPrint { copies, .. } => assert_eq!(copies, 7),
        _ => panic!("expected a print action"),
    }
}

#[test]
fn sessions_are_isolated() {
    let mut s1 = ConnectorSession::new();
    let mut s2 = ConnectorSession::new();
    dispatch(&mut s1, ClientMessage::Hello {
        version: b"1".to_vec(),
        origin: b"https://app.limestack.io/a".to_vec(),
    });
    assert!(s1.authenticated);
    assert!(!s2.authenticated);
    assert!(s2.origin.is_none());
    dispatch(&mut s2, ClientMessage::Hello {
        version: b"1".to_vec(),
        origin: b"http://localhost:5173/b".to_vec(),
    });
    assert_eq!(s1.origin, Some(b"https://app.limestack.io/a".to_vec()));
    assert_eq!(s2.origin, Some(b"http://localhost:5173/b".to_vec()));
    assert_ne!(s1.origin, s2.origin);
}

#[test]
fn welcome_carries_print_capability_and_snapshot() {
    let printers = vec![PrinterInfo {
        id: b"p1".to_vec(),
        name: b"Printer One".to_vec(),
        printer_type: b"standard".to_vec(),
        status: b"ready".to_vec(),
        is_default: false,
    }];
    match welcome_message(b"0.1.0".to_vec(), printers) {
        ServerMessage::Welcome { connector_version, capabilities, printers } => {
            assert_eq!(connector_version, b"0.1.0".to_vec());
            assert_eq!(capabilities, vec![b"print".to_vec()]);
            assert_eq!(printers.len(), 1);
            assert_eq!(printers[0].id, b"p1".to_vec());
            assert_eq!(printers[0].name, b"Printer One".to_vec());
        }
        _ => panic!("expected a welcome"),
    }
}

#[test]
fn decode_error_reply_names_the_reason() {
    let e = DecodeError { reason: b"unknown message type".to_vec() };
    match decode_error_reply(&e) {
        ServerMessage::Error { message } => {
            assert_eq!(message, b"Invalid message format: unknown message type".to_vec());
        }
        _ => panic!("expected an error reply"),
    }
}

#[test]
fn print_result_for_missing_printer() {
    match print_result_not_found(b"abc".to_vec(), b"nonexistent") {
        ServerMessage::PrintResult { request_id, success, message, error } => {
            assert_eq!(request_id, b"abc".to_vec());
            assert!(!success);
            assert!(message.is_none());
            assert_eq!(error, Some(b"Printer not found: nonexistent".to_vec()));
        }
        _ => panic!("expected a print result"),
    }
}

#[test]
fn print_result_for_successful_job() {
    match print_result_done(b"r1".to_vec(), b"Zebra_ZP450", Ok(())) {
        ServerMessage::PrintResult { request_id, success, message, error } => {
            assert_eq!(request_id, b"r1".to_vec());
            assert!(success);
            let m = message.expect("a success message");
            assert!(!m.is_empty());
            assert_eq!(m, b"Label sent to Zebra_ZP450".to_vec());
            assert!(error.is_none());
        }
        _ => panic!("expected a print result"),
    }
}

#[test]
fn print_result_for_failed_job() {
    match print_result_done(b"r2".to_vec(), b"p", Err(b"lp failed".to_vec())) {
        ServerMessage::PrintResult { request_id, success, message, error } => {
            assert_eq!(request_id, b"r2".to_vec());
            assert!(!success);
            assert!(message.is_none());
            assert_eq!(error, Some(b"lp failed".to_vec()));
        }
        _ => panic!("expected a print result"),
    }
}
