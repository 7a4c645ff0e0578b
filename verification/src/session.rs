//! Per-connection session state and the dispatch decision function.
//!
//! A session starts unauthenticated; the only transition is a `Hello` whose
//! origin matches one of the fixed allowed origins by prefix, after which the
//! session stays authenticated for its whole life. `dispatch` maps one inbound
//! message and the current session to the next session and one action; the
//! connection loop outside the crate performs the action (enumerating
//! printers, running a print job) and sends exactly one reply per message.

use vstd::prelude::*;

use crate::bytes::{push_bytes, starts_with_txt, txt, txt_vec};
use crate::protocol::{ClientMessage, ClientMsgV, DecodeError, PrintOptionsV, PrinterInfo,
    ServerMessage, ServerMsgV, bytes_seq_view, opt_bytes_view, printers_view};

verus! {

/// Per-connection state: the authentication flag and, once authenticated, the
/// origin the peer presented.
pub struct ConnectorSession {
    pub authenticated: bool,
    pub origin: Option<Vec<u8>>,
}

pub struct SessionV {
    pub authenticated: bool,
    pub origin: Option<Seq<u8>>,
}

impl View for ConnectorSession {
    type V = SessionV;

    open spec fn view(&self) -> SessionV {
        SessionV { authenticated: self.authenticated, origin: opt_bytes_view(self.origin) }
    }
}

impl ConnectorSession {
    /// A fresh, unauthenticated session for a newly upgraded connection.
    pub fn new() -> (s: ConnectorSession)
        ensures
            s@ == (SessionV { authenticated: false, origin: None::<Seq<u8>> }),
    {
        ConnectorSession { authenticated: false, origin: None }
    }
}

// ---------------------------------------------------------------------------
// Origin access control.
// ---------------------------------------------------------------------------

/// The fixed allow-list of trusted origins; a presented origin authenticates
/// when one of these is a prefix of it.
pub open spec fn origin_allowed(origin: Seq<u8>) -> bool {
    ||| txt("https://app.limestack.io").is_prefix_of(origin)
    ||| txt("https://limestack.io").is_prefix_of(origin)
    ||| txt("http://localhost:5173").is_prefix_of(origin)
    ||| txt("http://localhost:4173").is_prefix_of(origin)
}

/// Whether the presented origin matches the allow-list by prefix.
pub fn origin_is_allowed(origin: &[u8]) -> (r: bool)
    ensures
        r == origin_allowed(origin@),
{
    proof {
        reveal_strlit("https://app.limestack.io");
        reveal_strlit("https://limestack.io");
        reveal_strlit("http://localhost:5173");
        reveal_strlit("http://localhost:4173");
    }
    starts_with_txt(origin, "https://app.limestack.io")
        || starts_with_txt(origin, "https://limestack.io")
        || starts_with_txt(origin, "http://localhost:5173")
        || starts_with_txt(origin, "http://localhost:4173")
}

// ---------------------------------------------------------------------------
// Reply texts.
// ---------------------------------------------------------------------------

pub open spec fn text_origin_not_allowed() -> Seq<u8> {
    txt("Origin not allowed")
}

pub open spec fn text_not_authenticated() -> Seq<u8> {
    txt("Not authenticated")
}

pub open spec fn text_scale_unimplemented() -> Seq<u8> {
    txt("Scale reading not yet implemented")
}

// ---------------------------------------------------------------------------
// The dispatch decision.
// ---------------------------------------------------------------------------

/// What the connection loop must do next: either send a finished reply, or
/// gather something from the printer provider first.
pub enum Action {
    /// Send this message as the one reply.
    Reply(ServerMessage),
    /// Enumerate printers, then send `welcome_message(version, printers)`.
    ReplyWelcome,
    /// Enumerate printers, then send `printers_message(printers)`.
    ReplyPrinters,
    /// Resolve the printer and run the job, then send a `PrintResult`
    /// built by `print_result_not_found` or `print_result_done`.
    DoPrint {
        request_id: Vec<u8>,
        printer: Vec<u8>,
        format: Vec<u8>,
        data: Vec<u8>,
        copies: u32,
    },
}

pub enum ActionV {
    Reply(ServerMsgV),
    ReplyWelcome,
    ReplyPrinters,
    DoPrint {
        request_id: Seq<u8>,
        printer: Seq<u8>,
        format: Seq<u8>,
        data: Seq<u8>,
        copies: u32,
    },
}

impl View for Action {
    type V = ActionV;

    open spec fn view(&self) -> ActionV {
        match self {
            Action::Reply(m) => ActionV::Reply(m@),
            Action::ReplyWelcome => ActionV::ReplyWelcome,
            Action::ReplyPrinters => ActionV::ReplyPrinters,
            Action::DoPrint { request_id, printer, format, data, copies } => ActionV::DoPrint {
                request_id: request_id@,
                printer: printer@,
                format: format@,
                data: data@,
                copies: *copies,
            },
        }
    }
}

/// The number of copies a print request asks for; absent means one.
pub open spec fn effective_copies(options: PrintOptionsV) -> u32 {
    match options.copies {
        Some(c) => c,
        None => 1u32,
    }
}

/// The session state machine: next session state and action for one message.
pub open spec fn spec_dispatch(s: SessionV, m: ClientMsgV) -> (SessionV, ActionV) {
    match m {
        ClientMsgV::Hello { version, origin } => {
            if origin_allowed(origin) {
                (
                    SessionV { authenticated: true, origin: Some(origin) },
                    ActionV::ReplyWelcome,
                )
            } else {
                (s, ActionV::Reply(ServerMsgV::Error { message: text_origin_not_allowed() }))
            }
        },
        ClientMsgV::GetPrinters => {
            if !s.authenticated {
                (s, ActionV::Reply(ServerMsgV::Error { message: text_not_authenticated() }))
            } else {
                (s, ActionV::ReplyPrinters)
            }
        },
        ClientMsgV::Print { request_id, printer, format, data, options } => {
            if !s.authenticated {
                (s, ActionV::Reply(ServerMsgV::Error { message: text_not_authenticated() }))
            } else {
                (
                    s,
                    ActionV::DoPrint {
                        request_id,
                        printer,
                        format,
                        data,
                        copies: effective_copies(options),
                    },
                )
            }
        },
        ClientMsgV::ReadScale => {
            if !s.authenticated {
                (s, ActionV::Reply(ServerMsgV::Error { message: text_not_authenticated() }))
            } else {
                (s, ActionV::Reply(ServerMsgV::Error { message: text_scale_unimplemented() }))
            }
        },
    }
}

/// Decide what to do with one decoded message, updating the session exactly
/// as the state machine `spec_dispatch` says.
pub fn dispatch(session: &mut ConnectorSession, msg: ClientMessage) -> (a: Action)
    ensures
        final(session)@ == spec_dispatch(old(session)@, msg@).0,
        a@ == spec_dispatch(old(session)@, msg@).1,
{
    match msg {
        ClientMessage::Hello { version: _, origin } => {
            if origin_is_allowed(origin.as_slice()) {
                session.authenticated = true;
                session.origin = Some(origin);
                Action::ReplyWelcome
            } else {
                proof {
                    reveal_strlit("Origin not allowed");
                }
                Action::Reply(ServerMessage::Error { message: txt_vec("Origin not allowed") })
            }
        },
        ClientMessage::GetPrinters => {
            if !session.authenticated {
                proof {
                    reveal_strlit("Not authenticated");
                }
                Action::Reply(ServerMessage::Error { message: txt_vec("Not authenticated") })
            } else {
                Action::ReplyPrinters
            }
        },
        ClientMessage::Print { request_id, printer, format, data, options } => {
            if !session.authenticated {
                proof {
                    reveal_strlit("Not authenticated");
                }
                Action::Reply(ServerMessage::Error { message: txt_vec("Not authenticated") })
            } else {
                let copies: u32 = match options.copies {
                    Some(c) => c,
                    None => 1,
                };
                Action::DoPrint { request_id, printer, format, data, copies }
            }
        },
        ClientMessage::ReadScale => {
            if !session.authenticated {
                proof {
                    reveal_strlit("Not authenticated");
                }
                Action::Reply(ServerMessage::Error { message: txt_vec("Not authenticated") })
            } else {
                proof {
                    reveal_strlit("Scale reading not yet implemented");
                }
                Action::Reply(ServerMessage::Error {
                    message: txt_vec("Scale reading not yet implemented"),
                })
            }
        },
    }
}

// ---------------------------------------------------------------------------
// Reply builders.
// ---------------------------------------------------------------------------

/// The one capability the connector currently advertises.
pub open spec fn spec_capabilities() -> Seq<Seq<u8>> {
    seq![txt("print")]
}

/// The advertised capability list holds `print`: a client that checks the
/// `Welcome` before printing finds the capability there.
pub proof fn lemma_capabilities_advertise_print()
    ensures
        spec_capabilities().contains(txt("print")),
{
    assert(spec_capabilities()[0] == txt("print"));
}

/// The greeting after a successful handshake: the connector's version, its
/// capability list (exactly `print`), and the provider's printer snapshot.
pub fn welcome_message(connector_version: Vec<u8>, printers: Vec<PrinterInfo>) -> (m:
    ServerMessage)
    ensures
        m@ == (ServerMsgV::Welcome {
            connector_version: connector_version@,
            capabilities: spec_capabilities(),
            printers: printers_view(printers@),
        }),
{
    proof {
        reveal_strlit("print");
    }
    let mut capabilities: Vec<Vec<u8>> = Vec::new();
    capabilities.push(txt_vec("print"));
    proof {
        assert(bytes_seq_view(capabilities@) =~= spec_capabilities());
    }
    ServerMessage::Welcome { connector_version, capabilities, printers }
}

/// The reply to `GetPrinters`: the provider's current snapshot, unchanged.
pub fn printers_message(printers: Vec<PrinterInfo>) -> (m: ServerMessage)
    ensures
        m@ == (ServerMsgV::Printers { printers: printers_view(printers@) }),
{
    ServerMessage::Printers { printers }
}

/// The reply sent when a frame could not be decoded.
pub fn decode_error_reply(e: &DecodeError) -> (m: ServerMessage)
    ensures
        m@ == (ServerMsgV::Error { message: txt("Invalid message format: ") + e@ }),
{
    proof {
        reveal_strlit("Invalid message format: ");
    }
    let mut message: Vec<u8> = txt_vec("Invalid message format: ");
    push_bytes(&mut message, e.reason.as_slice());
    ServerMessage::Error { message }
}

/// The `PrintResult` for a print whose printer identifier resolved to no
/// system printer: a failure correlated to the request, with the identifier
/// named in the error and no success message.
pub fn print_result_not_found(request_id: Vec<u8>, printer_id: &[u8]) -> (m: ServerMessage)
    ensures
        m@ == (ServerMsgV::PrintResult {
            request_id: request_id@,
            success: false,
            message: None,
            error: Some(txt("Printer not found: ") + printer_id@),
        }),
{
    proof {
        reveal_strlit("Printer not found: ");
    }
    let mut error: Vec<u8> = txt_vec("Printer not found: ");
    push_bytes(&mut error, printer_id);
    ServerMessage::PrintResult { request_id, success: false, message: None, error: Some(error) }
}

/// The `PrintResult` for a print job the provider ran: on success a
/// non-empty confirmation naming the printer and no error, on failure the
/// provider's error text and no message; either way correlated to the
/// request.
pub fn print_result_done(request_id: Vec<u8>, printer_name: &[u8], outcome: Result<(), Vec<u8>>)
    -> (m: ServerMessage)
    ensures
        outcome is Ok ==> m@ == (ServerMsgV::PrintResult {
            request_id: request_id@,
            success: true,
            message: Some(txt("Label sent to ") + printer_name@),
            error: None,
        }),
        outcome matches Err(e) ==> m@ == (ServerMsgV::PrintResult {
            request_id: request_id@,
            success: false,
            message: None,
            error: Some(e@),
        }),
{
    match outcome {
        Ok(()) => {
            proof {
                reveal_strlit("Label sent to ");
            }
            let mut message: Vec<u8> = txt_vec("Label sent to ");
            push_bytes(&mut message, printer_name);
            ServerMessage::PrintResult {
                request_id,
                success: true,
                message: Some(message),
                error: None,
            }
        },
        Err(e) => ServerMessage::PrintResult {
            request_id,
            success: false,
            message: None,
            error: Some(e),
        },
    }
}

// ---------------------------------------------------------------------------
// Laws of the state machine.
// ---------------------------------------------------------------------------

/// Before a successful handshake, every message except `Hello` is answered
/// with the `Not authenticated` error and leaves the session unchanged.
pub proof fn lemma_unauthenticated_rejected(s: SessionV, m: ClientMsgV)
    requires
        !s.authenticated,
        !(m is Hello),
    ensures
        spec_dispatch(s, m).0 == s,
        spec_dispatch(s, m).1 == ActionV::Reply(
            ServerMsgV::Error { message: text_not_authenticated() },
        ),
{
}

/// An origin with an allowed origin as a prefix authenticates; the session
/// then records that origin. A disallowed origin draws the `Origin not
/// allowed` error and changes nothing, whatever the prior state.
pub proof fn lemma_hello_outcome(s: SessionV, version: Seq<u8>, origin: Seq<u8>)
    ensures
        origin_allowed(origin) ==> spec_dispatch(s, ClientMsgV::Hello { version, origin })
            == ((SessionV { authenticated: true, origin: Some(origin) }, ActionV::ReplyWelcome)),
        !origin_allowed(origin) ==> spec_dispatch(s, ClientMsgV::Hello { version, origin })
            == ((s, ActionV::Reply(ServerMsgV::Error { message: text_origin_not_allowed() }))),
{
}

/// Omitting `copies` in the print options is the same as asking for one copy.
pub proof fn lemma_copies_default(s: SessionV, request_id: Seq<u8>, printer: Seq<u8>,
    format: Seq<u8>, data: Seq<u8>, paper_size: Option<Seq<u8>>)
    ensures
        spec_dispatch(s, ClientMsgV::Print {
            request_id, printer, format, data,
            options: PrintOptionsV { copies: None, paper_size },
        }) == spec_dispatch(s, ClientMsgV::Print {
            request_id, printer, format, data,
            options: PrintOptionsV { copies: Some(1u32), paper_size },
        }),
{
    assert(effective_copies(PrintOptionsV { copies: None, paper_size })
        == effective_copies(PrintOptionsV { copies: Some(1u32), paper_size }));
}

/// Sessions are isolated: each connection's handshake records the origin
/// presented on that connection alone, so two connections authenticated from
/// different origins hold different session states, whatever either held
/// before.
pub proof fn lemma_session_isolation(s1: SessionV, s2: SessionV, v1: Seq<u8>, v2: Seq<u8>,
    o1: Seq<u8>, o2: Seq<u8>)
    requires
        origin_allowed(o1),
        origin_allowed(o2),
        o1 != o2,
    ensures
        spec_dispatch(s1, ClientMsgV::Hello { version: v1, origin: o1 }).0.origin
            == Some::<Seq<u8>>(o1),
        spec_dispatch(s2, ClientMsgV::Hello { version: v2, origin: o2 }).0.origin
            == Some::<Seq<u8>>(o2),
        spec_dispatch(s1, ClientMsgV::Hello { version: v1, origin: o1 }).0.origin
            != spec_dispatch(s2, ClientMsgV::Hello { version: v2, origin: o2 }).0.origin,
{
}

} // verus!
