//! Printer-facing helpers: describing and searching the provider's printer
//! snapshot, printer classification, and the compute side of a print
//! request.
//!
//! The provider's enumeration runs outside the crate and hands in a
//! `Vec<SystemPrinter>` of plain values; everything that reads it is
//! verified. The one outside call made here, base64 decoding, stands behind
//! a trusted wrapper.

use vstd::prelude::*;

use crate::bytes::{bytes_eq, bytes_eq_txt, contains_seq, contains_txt, txt, txt_vec};
use crate::protocol::{PrinterInfo, PrinterInfoV};

verus! {

// ---------------------------------------------------------------------------
// ASCII lowercasing.
// ---------------------------------------------------------------------------

pub open spec fn lower_byte(b: u8) -> u8 {
    if 0x41 <= b <= 0x5a {
        (b + 0x20) as u8
    } else {
        b
    }
}

/// ASCII-lowercased bytes; other bytes pass through unchanged.
pub open spec fn ascii_lower(s: Seq<u8>) -> Seq<u8> {
    s.map_values(|b: u8| lower_byte(b))
}

/// Lowercase the ASCII letters of a byte string.
pub fn to_ascii_lower(s: &[u8]) -> (r: Vec<u8>)
    ensures
        r@ == ascii_lower(s@),
{
    let mut r: Vec<u8> = Vec::new();
    let mut i: usize = 0;
    while i < s.len()
        invariant
            0 <= i <= s@.len(),
            r@ == ascii_lower(s@.take(i as int)),
        decreases s@.len() - i,
    {
        let b = s[i];
        let low: u8 = if 0x41 <= b && b <= 0x5a {
            b + 0x20
        } else {
            b
        };
        r.push(low);
        proof {
            assert(ascii_lower(s@.take(i + 1)) =~= ascii_lower(s@.take(i as int)).push(
                lower_byte(s@[i as int])));
        }
        i += 1;
    }
    proof {
        assert(s@.take(s@.len() as int) =~= s@);
    }
    r
}

// ---------------------------------------------------------------------------
// Thermal printer detection.
// ---------------------------------------------------------------------------

/// A printer counts as a thermal label printer when its lowercased name
/// holds one of the known label-printer keywords.
pub open spec fn spec_is_thermal(name: Seq<u8>) -> bool {
    ||| contains_seq(ascii_lower(name), txt("rollo"))
    ||| contains_seq(ascii_lower(name), txt("dymo"))
    ||| contains_seq(ascii_lower(name), txt("zebra"))
    ||| contains_seq(ascii_lower(name), txt("brother ql"))
    ||| contains_seq(ascii_lower(name), txt("thermal"))
    ||| contains_seq(ascii_lower(name), txt("label"))
    ||| contains_seq(ascii_lower(name), txt("4x6"))
    ||| contains_seq(ascii_lower(name), txt("shipping"))
    ||| contains_seq(ascii_lower(name), txt("stamps.com"))
}

/// Check if a printer is likely a thermal label printer based on its name.
pub fn is_thermal_printer(name: &[u8]) -> (r: bool)
    ensures
        r == spec_is_thermal(name@),
{
    proof {
        reveal_strlit("rollo");
        reveal_strlit("dymo");
        reveal_strlit("zebra");
        reveal_strlit("brother ql");
        reveal_strlit("thermal");
        reveal_strlit("label");
        reveal_strlit("4x6");
        reveal_strlit("shipping");
        reveal_strlit("stamps.com");
    }
    let lowered = to_ascii_lower(name);
    let l = lowered.as_slice();
    contains_txt(l, "rollo") || contains_txt(l, "dymo") || contains_txt(l, "zebra")
        || contains_txt(l, "brother ql") || contains_txt(l, "thermal")
        || contains_txt(l, "label") || contains_txt(l, "4x6") || contains_txt(l, "shipping")
        || contains_txt(l, "stamps.com")
}

// ---------------------------------------------------------------------------
// Sanitized printer identifiers.
// ---------------------------------------------------------------------------

pub open spec fn is_ascii_alnum(b: u8) -> bool {
    (0x30 <= b <= 0x39) || (0x61 <= b <= 0x7a) || (0x41 <= b <= 0x5a)
}

/// Lowercase, with every non-alphanumeric byte turned into a dash.
pub open spec fn dashified(s: Seq<u8>) -> Seq<u8> {
    ascii_lower(s).map_values(|b: u8| if is_ascii_alnum(b) { b } else { 0x2du8 })
}

pub open spec fn trim_dash_start(s: Seq<u8>) -> Seq<u8>
    decreases s.len(),
{
    if s.len() > 0 && s[0] == 0x2du8 {
        trim_dash_start(s.drop_first())
    } else {
        s
    }
}

pub open spec fn trim_dash_end(s: Seq<u8>) -> Seq<u8>
    decreases s.len(),
{
    if s.len() > 0 && s.last() == 0x2du8 {
        trim_dash_end(s.drop_last())
    } else {
        s
    }
}

/// The identifier derived from a printer name: lowercased, non-alphanumerics
/// dashed, and dashes trimmed from both ends.
pub open spec fn spec_sanitize(name: Seq<u8>) -> Seq<u8> {
    trim_dash_end(trim_dash_start(dashified(name)))
}

proof fn lemma_trim_start_skip(s: Seq<u8>, i: int)
    requires
        0 <= i <= s.len(),
        forall|j: int| 0 <= j < i ==> s[j] == 0x2du8,
    ensures
        trim_dash_start(s) == trim_dash_start(s.skip(i)),
    decreases i,
{
    if i > 0 {
        assert(s.drop_first() =~= s.skip(1));
        lemma_trim_start_skip(s.skip(1), i - 1);
        assert(s.skip(1).skip(i - 1) =~= s.skip(i));
    } else {
        assert(s.skip(0) =~= s);
    }
}

proof fn lemma_trim_end_take(s: Seq<u8>, e: int)
    requires
        0 <= e <= s.len(),
        forall|j: int| e <= j < s.len() ==> s[j] == 0x2du8,
    ensures
        trim_dash_end(s) == trim_dash_end(s.take(e)),
    decreases s.len() - e,
{
    if e < s.len() {
        assert(s.drop_last() =~= s.take(s.len() - 1));
        lemma_trim_end_take(s.take(s.len() - 1), e);
        assert(s.take(s.len() - 1).take(e) =~= s.take(e));
    } else {
        assert(s.take(s.len() as int) =~= s);
    }
}

/// Create a safe ID from printer name.
pub fn sanitize_printer_id(name: &[u8]) -> (r: Vec<u8>)
    ensures
        r@ == spec_sanitize(name@),
{
    let lowered = to_ascii_lower(name);
    let mut d: Vec<u8> = Vec::new();
    let mut i: usize = 0;
    while i < lowered.len()
        invariant
            0 <= i <= lowered@.len(),
            lowered@ == ascii_lower(name@),
            d@ == dashified(name@).take(i as int),
        decreases lowered@.len() - i,
    {
        let b = lowered[i];
        let mapped: u8 = if (0x30 <= b && b <= 0x39) || (0x61 <= b && b <= 0x7a) || (0x41 <= b
            && b <= 0x5a) {
            b
        } else {
            0x2d
        };
        d.push(mapped);
        proof {
            assert(dashified(name@).take(i + 1) =~= dashified(name@).take(i as int).push(
                dashified(name@)[i as int]));
        }
        i += 1;
    }
    proof {
        assert(dashified(name@).take(dashified(name@).len() as int) =~= dashified(name@));
    }
    // Trim dashes from the front.
    let mut start: usize = 0;
    while start < d.len() && d[start] == 0x2d
        invariant
            0 <= start <= d@.len(),
            d@ == dashified(name@),
            forall|j: int| 0 <= j < start ==> d@[j] == 0x2du8,
        decreases d@.len() - start,
    {
        start += 1;
    }
    proof {
        lemma_trim_start_skip(d@, start as int);
        if start < d@.len() {
            assert(trim_dash_start(d@.skip(start as int)) == d@.skip(start as int));
        } else {
            assert(d@.skip(start as int) =~= Seq::<u8>::empty());
        }
    }
    // Trim dashes from the back.
    let mut end: usize = d.len();
    while end > start && d[end - 1] == 0x2d
        invariant
            start <= end <= d@.len(),
            d@ == dashified(name@),
            forall|j: int| end <= j < d@.len() ==> d@[j] == 0x2du8,
        decreases end,
    {
        end -= 1;
    }
    let tail = Ghost(d@.skip(start as int));
    proof {
        let s = tail@;
        assert(s.len() == d@.len() - start);
        assert forall|j: int| (end - start) <= j < s.len() implies s[j] == 0x2du8 by {
            assert(s[j] == d@[j + start]);
        }
        lemma_trim_end_take(s, end - start);
        if end > start {
            assert(s.take(end - start).last() == d@[end - 1]);
            assert(trim_dash_end(s.take(end - start)) == s.take(end - start));
        } else {
            assert(s.take(0) =~= Seq::<u8>::empty());
        }
    }
    let mut r: Vec<u8> = Vec::new();
    let mut k: usize = start;
    while k < end
        invariant
            start <= k <= end <= d@.len(),
            r@ == d@.subrange(start as int, k as int),
        decreases end - k,
    {
        r.push(d[k]);
        proof {
            assert(d@.subrange(start as int, k + 1) =~= d@.subrange(start as int, k as int).push(
                d@[k as int]));
        }
        k += 1;
    }
    proof {
        assert(r@ =~= tail@.take(end - start));
    }
    r
}

// ---------------------------------------------------------------------------
// The provider snapshot.
// ---------------------------------------------------------------------------

/// One system printer as the provider reports it: display name, exact system
/// name, and whether it is the default printer.
pub struct SystemPrinter {
    pub name: Vec<u8>,
    pub system_name: Vec<u8>,
    pub is_default: bool,
}

pub struct SystemPrinterV {
    pub name: Seq<u8>,
    pub system_name: Seq<u8>,
    pub is_default: bool,
}

impl View for SystemPrinter {
    type V = SystemPrinterV;

    open spec fn view(&self) -> SystemPrinterV {
        SystemPrinterV {
            name: self.name@,
            system_name: self.system_name@,
            is_default: self.is_default,
        }
    }
}

/// The protocol-level description of one system printer: its system name as
/// the identifier, a thermal/standard classification from its display name,
/// and the fixed `ready` status.
pub open spec fn printer_info_of(p: SystemPrinterV) -> PrinterInfoV {
    PrinterInfoV {
        id: p.system_name,
        name: p.name,
        printer_type: if spec_is_thermal(p.name) {
            txt("thermal")
        } else {
            txt("standard")
        },
        status: txt("ready"),
        is_default: p.is_default,
    }
}

/// Describe a provider snapshot entry by entry.
pub fn printers_from_system(sys: &Vec<SystemPrinter>) -> (r: Vec<PrinterInfo>)
    ensures
        r@.len() == sys@.len(),
        forall|i: int| 0 <= i < sys@.len() ==> r@[i]@ == printer_info_of(sys@[i]@),
{
    let mut r: Vec<PrinterInfo> = Vec::new();
    let mut i: usize = 0;
    while i < sys.len()
        invariant
            0 <= i <= sys@.len(),
            r@.len() == i,
            forall|j: int| 0 <= j < i ==> r@[j]@ == printer_info_of(sys@[j]@),
        decreases sys@.len() - i,
    {
        proof {
            reveal_strlit("thermal");
            reveal_strlit("standard");
            reveal_strlit("ready");
        }
        let p = &sys[i];
        let printer_type: Vec<u8> = if is_thermal_printer(p.name.as_slice()) {
            txt_vec("thermal")
        } else {
            txt_vec("standard")
        };
        let info = PrinterInfo {
            id: vstd::slice::slice_to_vec(p.system_name.as_slice()),
            name: vstd::slice::slice_to_vec(p.name.as_slice()),
            printer_type,
            status: txt_vec("ready"),
            is_default: p.is_default,
        };
        r.push(info);
        i += 1;
    }
    r
}

// ---------------------------------------------------------------------------
// Printer lookup.
// ---------------------------------------------------------------------------

/// Find the printer whose system name is exactly `printer_id` in a snapshot;
/// found if and only if an entry with that system name is present, and the
/// returned name is then that system name, which is `printer_id` itself.
pub fn find_printer_in(sys: &Vec<SystemPrinter>, printer_id: &[u8]) -> (r: Option<Vec<u8>>)
    ensures
        r is Some <==> (exists|k: int|
            0 <= k < sys@.len() && (#[trigger] sys@[k]@).system_name == printer_id@),
        r matches Some(v) ==> v@ == printer_id@,
{
    let mut i: usize = 0;
    while i < sys.len()
        invariant
            0 <= i <= sys@.len(),
            forall|k: int| 0 <= k < i ==> (#[trigger] sys@[k]@).system_name != printer_id@,
        decreases sys@.len() - i,
    {
        if bytes_eq(sys[i].system_name.as_slice(), printer_id) {
            proof {
                assert((sys@[i as int]@).system_name == printer_id@);
            }
            return Some(vstd::slice::slice_to_vec(sys[i].system_name.as_slice()));
        }
        i += 1;
    }
    None
}

// ---------------------------------------------------------------------------
// The compute side of a print request.
// ---------------------------------------------------------------------------

/// What an outside base64 decode of these bytes yields: nothing when they are
/// not valid standard base64, else the decoded payload. A function of the
/// bytes alone.
pub uninterp spec fn base64_decoded(data: Seq<u8>) -> Option<Seq<u8>>;

/// Relies on base64::Engine::decode with the general-purpose standard
/// engine: whether a byte string is valid base64, and what it decodes to,
/// depend on the input bytes alone.
#[verifier::external_body]
fn b64_decode(data: &[u8]) -> (r: Option<Vec<u8>>)
    ensures
        (r is Some) == (base64_decoded(data@) is Some),
        r matches Some(v) ==> base64_decoded(data@) == Some(v@),
{
    match base64::Engine::decode(&base64::engine::general_purpose::STANDARD, data) {
        Ok(v) => Some(v),
        Err(_) => None,
    }
}

/// The temp-file extension for a requested format: `png` and `jpg`/`jpeg`
/// keep their kind, anything else is treated as PDF.
pub open spec fn spec_extension(format: Seq<u8>) -> Seq<u8> {
    if ascii_lower(format) == txt("png") {
        txt("png")
    } else if ascii_lower(format) == txt("jpg") || ascii_lower(format) == txt("jpeg") {
        txt("jpg")
    } else {
        txt("pdf")
    }
}

/// Pick the temp-file extension for a requested format.
pub fn extension_for_format(format: &[u8]) -> (r: Vec<u8>)
    ensures
        r@ == spec_extension(format@),
{
    proof {
        reveal_strlit("png");
        reveal_strlit("jpg");
        reveal_strlit("jpeg");
        reveal_strlit("pdf");
    }
    let lowered = to_ascii_lower(format);
    let l = lowered.as_slice();
    if bytes_eq_txt(l, "png") {
        txt_vec("png")
    } else if bytes_eq_txt(l, "jpg") || bytes_eq_txt(l, "jpeg") {
        txt_vec("jpg")
    } else {
        txt_vec("pdf")
    }
}

/// The compute part of a print request: decode the base64 payload and pick
/// the temp-file extension. Succeeds if and only if the payload is valid
/// base64; the job's raw bytes and extension are then fixed by the request.
pub fn prepare_print_payload(data: &[u8], format: &[u8]) -> (r: Result<(Vec<u8>, Vec<u8>), Vec<
    u8>>)
    ensures
        r is Ok <==> base64_decoded(data@) is Some,
        r matches Ok((payload, ext)) ==> base64_decoded(data@) == Some(payload@) && ext@
            == spec_extension(format@),
        r matches Err(e) ==> e@ == txt("Failed to decode ") + format@,
{
    match b64_decode(data) {
        Some(payload) => Ok((payload, extension_for_format(format))),
        None => {
            proof {
                reveal_strlit("Failed to decode ");
            }
            let mut e = txt_vec("Failed to decode ");
            crate::bytes::push_bytes(&mut e, format);
            Err(e)
        },
    }
}

} // verus!
