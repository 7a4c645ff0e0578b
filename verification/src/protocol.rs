//! The wire-level message types of the bridge protocol.
//!
//! Frames are UTF-8 JSON texts, held here as byte vectors; every field that is
//! a JSON string on the wire is a `Vec<u8>` of its UTF-8 bytes. Each exec type
//! has a spec-level twin (`...V`) over `Seq<u8>` that the contracts speak of.

use vstd::prelude::*;

verus! {

/// Messages from the browser to the connector.
pub enum ClientMessage {
    Hello { version: Vec<u8>, origin: Vec<u8> },
    GetPrinters,
    Print {
        request_id: Vec<u8>,
        printer: Vec<u8>,
        format: Vec<u8>,
        /// Base64-encoded payload; decoded only at the print boundary.
        data: Vec<u8>,
        options: PrintOptions,
    },
    ReadScale,
}

pub struct PrintOptions {
    pub copies: Option<u32>,
    pub paper_size: Option<Vec<u8>>,
}

/// Messages from the connector to the browser.
pub enum ServerMessage {
    Welcome {
        connector_version: Vec<u8>,
        capabilities: Vec<Vec<u8>>,
        printers: Vec<PrinterInfo>,
    },
    Printers { printers: Vec<PrinterInfo> },
    PrintResult {
        request_id: Vec<u8>,
        success: bool,
        message: Option<Vec<u8>>,
        error: Option<Vec<u8>>,
    },
    ScaleReading { weight: i64, unit: Vec<u8>, stable: bool },
    Error { message: Vec<u8> },
}

pub struct PrinterInfo {
    pub id: Vec<u8>,
    pub name: Vec<u8>,
    pub printer_type: Vec<u8>,
    pub status: Vec<u8>,
    pub is_default: bool,
}

/// A structured reason for rejecting an inbound frame.
pub struct DecodeError {
    pub reason: Vec<u8>,
}

// ---------------------------------------------------------------------------
// Spec-level twins.
// ---------------------------------------------------------------------------

pub enum ClientMsgV {
    Hello { version: Seq<u8>, origin: Seq<u8> },
    GetPrinters,
    Print {
        request_id: Seq<u8>,
        printer: Seq<u8>,
        format: Seq<u8>,
        data: Seq<u8>,
        options: PrintOptionsV,
    },
    ReadScale,
}

pub struct PrintOptionsV {
    pub copies: Option<u32>,
    pub paper_size: Option<Seq<u8>>,
}

pub enum ServerMsgV {
    Welcome {
        connector_version: Seq<u8>,
        capabilities: Seq<Seq<u8>>,
        printers: Seq<PrinterInfoV>,
    },
    Printers { printers: Seq<PrinterInfoV> },
    PrintResult {
        request_id: Seq<u8>,
        success: bool,
        message: Option<Seq<u8>>,
        error: Option<Seq<u8>>,
    },
    ScaleReading { weight: i64, unit: Seq<u8>, stable: bool },
    Error { message: Seq<u8> },
}

pub struct PrinterInfoV {
    pub id: Seq<u8>,
    pub name: Seq<u8>,
    pub printer_type: Seq<u8>,
    pub status: Seq<u8>,
    pub is_default: bool,
}

pub open spec fn opt_bytes_view(o: Option<Vec<u8>>) -> Option<Seq<u8>> {
    match o {
        Option::Some(v) => Option::Some(v@),
        Option::None => Option::None,
    }
}

pub open spec fn bytes_seq_view(s: Seq<Vec<u8>>) -> Seq<Seq<u8>> {
    s.map_values(|v: Vec<u8>| v@)
}

pub open spec fn printers_view(s: Seq<PrinterInfo>) -> Seq<PrinterInfoV> {
    s.map_values(|p: PrinterInfo| p@)
}

impl View for PrintOptions {
    type V = PrintOptionsV;

    open spec fn view(&self) -> PrintOptionsV {
        PrintOptionsV { copies: self.copies, paper_size: opt_bytes_view(self.paper_size) }
    }
}

impl View for PrinterInfo {
    type V = PrinterInfoV;

    open spec fn view(&self) -> PrinterInfoV {
        PrinterInfoV {
            id: self.id@,
            name: self.name@,
            printer_type: self.printer_type@,
            status: self.status@,
            is_default: self.is_default,
        }
    }
}

impl View for ClientMessage {
    type V = ClientMsgV;

    open spec fn view(&self) -> ClientMsgV {
        match self {
            ClientMessage::Hello { version, origin } => ClientMsgV::Hello {
                version: version@,
                origin: origin@,
            },
            ClientMessage::GetPrinters => ClientMsgV::GetPrinters,
            ClientMessage::Print { request_id, printer, format, data, options } => {
                ClientMsgV::Print {
                    request_id: request_id@,
                    printer: printer@,
                    format: format@,
                    data: data@,
                    options: options@,
                }
            },
            ClientMessage::ReadScale => ClientMsgV::ReadScale,
        }
    }
}

impl View for ServerMessage {
    type V = ServerMsgV;

    open spec fn view(&self) -> ServerMsgV {
        match self {
            ServerMessage::Welcome { connector_version, capabilities, printers } => {
                ServerMsgV::Welcome {
                    connector_version: connector_version@,
                    capabilities: bytes_seq_view(capabilities@),
                    printers: printers_view(printers@),
                }
            },
            ServerMessage::Printers { printers } => ServerMsgV::Printers {
                printers: printers_view(printers@),
            },
            ServerMessage::PrintResult { request_id, success, message, error } => {
                ServerMsgV::PrintResult {
                    request_id: request_id@,
                    success: *success,
                    message: opt_bytes_view(*message),
                    error: opt_bytes_view(*error),
                }
            },
            ServerMessage::ScaleReading { weight, unit, stable } => ServerMsgV::ScaleReading {
                weight: *weight,
                unit: unit@,
                stable: *stable,
            },
            ServerMessage::Error { message } => ServerMsgV::Error { message: message@ },
        }
    }
}

impl View for DecodeError {
    type V = Seq<u8>;

    open spec fn view(&self) -> Seq<u8> {
        self.reason@
    }
}

} // verus!
