use limestack_connector::printer::{
    extension_for_format, find_printer_in, is_thermal_printer, prepare_print_payload,
    printers_from_system, sanitize_printer_id, SystemPrinter,
};

#[test]
fn thermal_names_are_detected() {
    assert!(is_thermal_printer(b"DYMO LabelWriter 450"));
    assert!(is_thermal_printer(b"Zebra ZP450"));
    assert!(is_thermal_printer(b"Brother QL-800"));
    assert!(is_thermal_printer(b"Generic 4x6 Shipping"));
    assert!(is_thermal_printer(b"ROLLO Printer"));
    assert!(is_thermal_printer(b"stamps.com special"));
}

#[test]
fn ordinary_names_are_not_thermal() {
    assert!(!is_thermal_printer(b"HP LaserJet 4000"));
    assert!(!is_thermal_printer(b"Canon PIXMA"));
    assert!(!is_thermal_printer(b""));
}

#[test]
fn sanitize_lowercases_and_dashes() {
    assert_eq!(sanitize_printer_id(b"HP LaserJet 4000"), b"hp-laserjet-4000".to_vec());
    assert_eq!(sanitize_printer_id(b"My Printer (USB)"), b"my-printer--usb".to_vec());
    assert_eq!(sanitize_printer_id(b"--x--"), b"x".to_vec());
    assert_eq!(sanitize_printer_id(b"___"), b"".to_vec());
    assert_eq!(sanitize_printer_id(b""), b"".to_vec());
}

#[test]
fn snapshot_is_described_entry_by_entry() {
    let sys = vec![
        SystemPrinter {
            name: b"Zebra ZP450".to_vec(),
            system_name: b"Zebra_ZP450".to_vec(),
            is_default: true,
        },
        SystemPrinter {
            name: b"HP LaserJet".to_vec(),
            system_name: b"HP_LaserJet".to_vec(),
            is_default: false,
        },
    ];
    let infos = printers_from_system(&sys);
    assert_eq!(infos.len(), 2);
    assert_eq!(infos[0].id, b"Zebra_ZP450".to_vec());
    assert_eq!(infos[0].name, b"Zebra ZP450".to_vec());
    assert_eq!(infos[0].printer_type, b"thermal".to_vec());
    assert_eq!(infos[0].status, b"ready".to_vec());
    assert!(infos[0].is_default);
    assert_eq!(infos[1].id, b"HP_LaserJet".to_vec());
    assert_eq!(infos[1].printer_type, b"standard".to_vec());
    assert_eq!(infos[1].status, b"ready".to_vec());
    assert!(!infos[1].is_default);
}

#[test]
fn find_printer_in_matches_system_name_exactly() {
    let sys = vec![
        SystemPrinter {
            name: b"Zebra ZP450".to_vec(),
            system_name: b"Zebra_ZP450".to_vec(),
            is_default: false,
        },
    ];
    assert_eq!(find_printer_in(&sys, b"Zebra_ZP450"), Some(b"Zebra_ZP450".to_vec()));
    assert_eq!(find_printer_in(&sys, b"Zebra ZP450"), None);
    assert_eq!(find_printer_in(&sys, b"nonexistent"), None);
    assert_eq!(find_printer_in(&vec![], b"anything"), None);
}

#[test]
fn extensions_follow_the_format() {
    assert_eq!(extension_for_format(b"pdf"), b"pdf".to_vec());
    assert_eq!(extension_for_format(b"PNG"), b"png".to_vec());
    assert_eq!(extension_for_format(b"jpg"), b"jpg".to_vec());
    assert_eq!(extension_for_format(b"JPEG"), b"jpg".to_vec());
    assert_eq!(extension_for_format(b"docx"), b"pdf".to_vec());
    assert_eq!(extension_for_format(b""), b"pdf".to_vec());
}

#[test]
fn valid_base64_payload_is_decoded() {
    match prepare_print_payload(b"aGVsbG8=", b"pdf") {
        Ok((payload, ext)) => {
            assert_eq!(payload, b"hello".to_vec());
            assert_eq!(ext, b"pdf".to_vec());
        }
        Err(_) => panic!("expected a decoded payload"),
    }
}

#[test]
fn empty_base64_payload_is_empty() {
    match prepare_print_payload(b"", b"png") {
        Ok((payload, ext)) => {
            assert_eq!(payload, Vec::<u8>::new());
            assert_eq!(ext, b"png".to_vec());
        }
        Err(_) => panic!("expected a decoded payload"),
    }
}

#[test]
fn invalid_base64_payload_is_refused() {
    match prepare_print_payload(b"!!!not base64!!!", b"pdf") {
        Err(e) => assert_eq!(e, b"Failed to decode pdf".to_vec()),
        Ok(_) => panic!("expected an error"),
    }
}
