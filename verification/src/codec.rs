//! The message codec: inbound JSON text frames to typed client messages, and
//! typed server messages to outbound JSON text frames.
//!
//! The grammar is the protocol's own: one JSON object per frame, selected by
//! its `type` field. The spec-level parser (`spec_decode`) defines exactly
//! what every frame decodes to; the executable decoder is proved to return
//! precisely that, so a malformed or unknown frame always yields a
//! `DecodeError` and never a fault. Inside strings the common escapes are
//! understood; an ignored field may hold any scalar value.

use vstd::prelude::*;

use crate::bytes::{contains_at, txt, txt_at};
use crate::protocol::{ClientMessage, ClientMsgV, DecodeError, PrintOptions, PrintOptionsV};

verus! {

// ---------------------------------------------------------------------------
// Decode error reasons.
// ---------------------------------------------------------------------------

pub open spec fn reason_syntax() -> Seq<u8> {
    txt("malformed JSON")
}

pub open spec fn reason_duplicate() -> Seq<u8> {
    txt("duplicate field")
}

pub open spec fn reason_field() -> Seq<u8> {
    txt("invalid field value")
}

pub open spec fn reason_missing() -> Seq<u8> {
    txt("missing required field")
}

pub open spec fn reason_unknown_type() -> Seq<u8> {
    txt("unknown message type")
}

pub open spec fn reason_trailing() -> Seq<u8> {
    txt("unexpected trailing characters")
}

// ---------------------------------------------------------------------------
// Whitespace.
// ---------------------------------------------------------------------------

pub open spec fn is_ws(b: u8) -> bool {
    b == 0x20 || b == 0x09 || b == 0x0a || b == 0x0d
}

/// The index of the first non-whitespace byte at or after `i`.
pub open spec fn skip_ws(s: Seq<u8>, i: int) -> int
    decreases s.len() - i when 0 <= i <= s.len()
{
    if i < s.len() && is_ws(s[i]) {
        skip_ws(s, i + 1)
    } else {
        i
    }
}

pub proof fn lemma_skip_ws_bounds(s: Seq<u8>, i: int)
    requires
        0 <= i <= s.len(),
    ensures
        i <= skip_ws(s, i) <= s.len(),
        skip_ws(s, i) < s.len() ==> !is_ws(s[skip_ws(s, i)]),
    decreases s.len() - i,
{
    if i < s.len() && is_ws(s[i]) {
        lemma_skip_ws_bounds(s, i + 1);
    }
}

fn skip_ws_from(s: &[u8], i: usize) -> (j: usize)
    requires
        i <= s@.len(),
    ensures
        j as int == skip_ws(s@, i as int),
        i <= j <= s@.len(),
{
    let mut j = i;
    while j < s.len() && (s[j] == 0x20 || s[j] == 0x09 || s[j] == 0x0a || s[j] == 0x0d)
        invariant
            i <= j <= s@.len(),
            skip_ws(s@, i as int) == skip_ws(s@, j as int),
        decreases s@.len() - j,
    {
        j += 1;
    }
    j
}

// ---------------------------------------------------------------------------
// Strings.
// ---------------------------------------------------------------------------

/// The byte an escape character after a backslash stands for.
pub open spec fn unescaped(b: u8) -> Option<u8> {
    if b == 0x22 {
        Some(0x22u8)  // \"
    } else if b == 0x5c {
        Some(0x5cu8)  // backslash
    } else if b == 0x2f {
        Some(0x2fu8)  // /
    } else if b == 0x62 {
        Some(0x08u8)  // \b
    } else if b == 0x66 {
        Some(0x0cu8)  // \f
    } else if b == 0x6e {
        Some(0x0au8)  // \n
    } else if b == 0x72 {
        Some(0x0du8)  // \r
    } else if b == 0x74 {
        Some(0x09u8)  // \t
    } else {
        None
    }
}

/// Parse the remainder of a string whose opening quote stands before `i`,
/// with `acc` the content already read: the content and the index after the
/// closing quote. Unterminated strings, raw control bytes and unknown
/// escapes are refused.
pub open spec fn parse_string_body(s: Seq<u8>, i: int, acc: Seq<u8>) -> Option<(Seq<u8>, int)>
    decreases s.len() - i when 0 <= i <= s.len()
{
    if i >= s.len() {
        None
    } else if s[i] == 0x22 {
        Some((acc, i + 1))
    } else if s[i] == 0x5c {
        if i + 1 < s.len() {
            match unescaped(s[i + 1]) {
                Some(b) => parse_string_body(s, i + 2, acc.push(b)),
                None => None,
            }
        } else {
            None
        }
    } else if s[i] < 0x20 {
        None
    } else {
        parse_string_body(s, i + 1, acc.push(s[i]))
    }
}

/// Parse a string value at `i`: its content and the index after it.
pub open spec fn parse_string(s: Seq<u8>, i: int) -> Option<(Seq<u8>, int)> {
    if 0 <= i < s.len() && s[i] == 0x22 {
        parse_string_body(s, i + 1, Seq::empty())
    } else {
        None
    }
}

pub proof fn lemma_parse_string_body_bounds(s: Seq<u8>, i: int, acc: Seq<u8>)
    requires
        0 <= i <= s.len(),
    ensures
        parse_string_body(s, i, acc) matches Some((c, j)) ==> i < j <= s.len(),
    decreases s.len() - i,
{
    if i < s.len() && s[i] == 0x5c && i + 1 < s.len() && unescaped(s[i + 1]) is Some {
        lemma_parse_string_body_bounds(s, i + 2, acc.push(unescaped(s[i + 1]).unwrap()));
    } else if i < s.len() && s[i] != 0x22 && s[i] != 0x5c && s[i] >= 0x20 {
        lemma_parse_string_body_bounds(s, i + 1, acc.push(s[i]));
    }
}

pub proof fn lemma_parse_string_bounds(s: Seq<u8>, i: int)
    ensures
        parse_string(s, i) matches Some((c, j)) ==> i < j <= s.len(),
{
    if 0 <= i < s.len() && s[i] == 0x22 {
        lemma_parse_string_body_bounds(s, i + 1, Seq::empty());
    }
}

/// Parse a string value at `i`.
fn parse_string_at(s: &[u8], i: usize) -> (r: Option<(Vec<u8>, usize)>)
    requires
        i <= s@.len(),
    ensures
        (r is Some) == (parse_string(s@, i as int) is Some),
        r matches Some((c, j)) ==> parse_string(s@, i as int) == Some((c@, j as int)) && i < j
            <= s@.len(),
{
    proof {
        lemma_parse_string_bounds(s@, i as int);
    }
    if i >= s.len() || s[i] != 0x22 {
        return None;
    }
    let mut acc: Vec<u8> = Vec::new();
    let mut k: usize = i + 1;
    loop
        invariant
            i + 1 <= k <= s@.len(),
            parse_string_body(s@, i + 1, Seq::empty()) == parse_string_body(s@, k as int, acc@),
            parse_string(s@, i as int) == parse_string_body(s@, i + 1, Seq::empty()),
        decreases s@.len() - k,
    {
        if k >= s.len() {
            return None;
        }
        let b = s[k];
        if b == 0x22 {
            return Some((acc, k + 1));
        } else if b == 0x5c {
            if k + 1 >= s.len() {
                return None;
            }
            let e = s[k + 1];
            let u: u8 = if e == 0x22 {
                0x22
            } else if e == 0x5c {
                0x5c
            } else if e == 0x2f {
                0x2f
            } else if e == 0x62 {
                0x08
            } else if e == 0x66 {
                0x0c
            } else if e == 0x6e {
                0x0a
            } else if e == 0x72 {
                0x0d
            } else if e == 0x74 {
                0x09
            } else {
                return None;
            };
            acc.push(u);
            k += 2;
        } else if b < 0x20 {
            return None;
        } else {
            acc.push(b);
            k += 1;
        }
    }
}

// ---------------------------------------------------------------------------
// Numbers (unsigned integers, for `copies`).
// ---------------------------------------------------------------------------

pub open spec fn is_digit(b: u8) -> bool {
    0x30 <= b <= 0x39
}

/// Accumulate a run of digits starting at `i` onto `acc`: the value and the
/// index after the run.
pub open spec fn parse_digits(s: Seq<u8>, i: int, acc: nat) -> (nat, int)
    decreases s.len() - i when 0 <= i <= s.len()
{
    if i < s.len() && is_digit(s[i]) {
        parse_digits(s, i + 1, acc * 10 + (s[i] - 0x30) as nat)
    } else {
        (acc, i)
    }
}

pub proof fn lemma_parse_digits_bounds(s: Seq<u8>, i: int, acc: nat)
    requires
        0 <= i <= s.len(),
    ensures
        i <= parse_digits(s, i, acc).1 <= s.len(),
    decreases s.len() - i,
{
    if i < s.len() && is_digit(s[i]) {
        lemma_parse_digits_bounds(s, i + 1, acc * 10 + (s[i] - 0x30) as nat);
    }
}

/// Parse an unsigned integer at `i` for the `copies` option: refused when no
/// digit stands there, on a superfluous leading zero, when the value does not
/// fit `u32`, or when a fraction or exponent follows (the value would not be
/// an integer).
pub open spec fn parse_copies(s: Seq<u8>, i: int) -> Result<(u32, int), ()> {
    if !(0 <= i < s.len() && is_digit(s[i])) {
        Err(())
    } else if s[i] == 0x30 && i + 1 < s.len() && is_digit(s[i + 1]) {
        Err(())
    } else {
        let (v, j) = parse_digits(s, i, 0);
        if v > u32::MAX {
            Err(())
        } else if j < s.len() && (s[j] == 0x2e || s[j] == 0x65 || s[j] == 0x45) {
            Err(())
        } else {
            Ok((v as u32, j))
        }
    }
}

/// Parse the `copies` value at `i`.
fn parse_copies_at(s: &[u8], i: usize) -> (r: Result<(u32, usize), ()>)
    requires
        i <= s@.len(),
    ensures
        (r is Ok) == (parse_copies(s@, i as int) is Ok),
        r matches Ok((v, j)) ==> parse_copies(s@, i as int) == Ok::<_, ()>((v, j as int)) && i
            < j <= s@.len(),
{
    if i >= s.len() || s[i] < 0x30 || s[i] > 0x39 {
        return Err(());
    }
    if s[i] == 0x30 && i + 1 < s.len() && 0x30 <= s[i + 1] && s[i + 1] <= 0x39 {
        return Err(());
    }
    let ghost total = parse_digits(s@, i as int, 0);
    proof {
        lemma_parse_digits_bounds(s@, i as int, 0);
    }
    let mut j: usize = i;
    let mut acc: u64 = 0;
    let mut big: bool = false;
    let ghost mut gacc: nat = 0;
    while j < s.len() && 0x30 <= s[j] && s[j] <= 0x39
        invariant
            i <= j <= s@.len(),
            total == parse_digits(s@, j as int, gacc),
            !big ==> gacc <= u32::MAX && acc == gacc,
            big ==> gacc > u32::MAX,
        decreases s@.len() - j,
    {
        let d = s[j] - 0x30;
        proof {
            let g2: nat = gacc * 10 + d as nat;
            assert(gacc * 10 >= gacc) by (nonlinear_arith)
                requires gacc >= 0;
            if gacc > u32::MAX {
                assert(g2 > u32::MAX);
            }
            gacc = g2;
        }
        if !big {
            let next = acc * 10 + d as u64;
            if next > 0xffff_ffff {
                big = true;
            } else {
                acc = next;
            }
        }
        j += 1;
    }
    proof {
        assert(total == (gacc, j as int));
    }
    if big {
        return Err(());
    }
    if j < s.len() && (s[j] == 0x2e || s[j] == 0x65 || s[j] == 0x45) {
        return Err(());
    }
    proof {
        assert(total.0 <= u32::MAX);
    }
    Ok((acc as u32, j))
}

// ---------------------------------------------------------------------------
// Ignored scalar values.
// ---------------------------------------------------------------------------

/// The byte class a JSON number is spelled from.
pub open spec fn is_numberish(b: u8) -> bool {
    is_digit(b) || b == 0x2d || b == 0x2b || b == 0x2e || b == 0x65 || b == 0x45
}

pub open spec fn skip_numberish(s: Seq<u8>, i: int) -> int
    decreases s.len() - i when 0 <= i <= s.len()
{
    if i < s.len() && is_numberish(s[i]) {
        skip_numberish(s, i + 1)
    } else {
        i
    }
}

pub proof fn lemma_skip_numberish_bounds(s: Seq<u8>, i: int)
    requires
        0 <= i <= s.len(),
    ensures
        i <= skip_numberish(s, i) <= s.len(),
    decreases s.len() - i,
{
    if i < s.len() && is_numberish(s[i]) {
        lemma_skip_numberish_bounds(s, i + 1);
    }
}

/// Pass over the scalar value of an ignored field: a string, a number, or a
/// literal. A nested array or object in an ignored field is refused.
pub open spec fn skip_scalar(s: Seq<u8>, i: int) -> Option<int> {
    if !(0 <= i < s.len()) {
        None
    } else if s[i] == 0x22 {
        match parse_string(s, i) {
            Some((c, j)) => Some(j),
            None => None,
        }
    } else if is_numberish(s[i]) {
        Some(skip_numberish(s, i))
    } else if contains_at(s, txt("true"), i) {
        Some(i + 4)
    } else if contains_at(s, txt("false"), i) {
        Some(i + 5)
    } else if contains_at(s, txt("null"), i) {
        Some(i + 4)
    } else {
        None
    }
}

pub proof fn lemma_skip_scalar_bounds(s: Seq<u8>, i: int)
    requires
        0 <= i <= s.len(),
    ensures
        skip_scalar(s, i) matches Some(j) ==> i < j <= s.len(),
{
    reveal_strlit("true");
    reveal_strlit("false");
    reveal_strlit("null");
    lemma_parse_string_bounds(s, i);
    if i < s.len() && s[i] != 0x22 && is_numberish(s[i]) {
        lemma_skip_numberish_bounds(s, i);
        assert(skip_numberish(s, i) == skip_numberish(s, i + 1));
        lemma_skip_numberish_bounds(s, i + 1);
    }
}

/// Pass over an ignored scalar value at `i`.
fn skip_scalar_at(s: &[u8], i: usize) -> (r: Option<usize>)
    requires
        i <= s@.len(),
    ensures
        (r is Some) == (skip_scalar(s@, i as int) is Some),
        r matches Some(j) ==> skip_scalar(s@, i as int) == Some(j as int) && i < j <= s@.len(),
{
    proof {
        lemma_skip_scalar_bounds(s@, i as int);
        reveal_strlit("true");
        reveal_strlit("false");
        reveal_strlit("null");
    }
    if i >= s.len() {
        return None;
    }
    let b = s[i];
    if b == 0x22 {
        match parse_string_at(s, i) {
            Some((_, j)) => Some(j),
            None => None,
        }
    } else if (0x30 <= b && b <= 0x39) || b == 0x2d || b == 0x2b || b == 0x2e || b == 0x65
        || b == 0x45 {
        let mut j: usize = i;
        while j < s.len() && ((0x30 <= s[j] && s[j] <= 0x39) || s[j] == 0x2d || s[j] == 0x2b
            || s[j] == 0x2e || s[j] == 0x65 || s[j] == 0x45)
            invariant
                i <= j <= s@.len(),
                skip_numberish(s@, i as int) == skip_numberish(s@, j as int),
            decreases s@.len() - j,
        {
            j += 1;
        }
        Some(j)
    } else if txt_at(s, i, "true") {
        Some(i + 4)
    } else if txt_at(s, i, "false") {
        Some(i + 5)
    } else if txt_at(s, i, "null") {
        Some(i + 4)
    } else {
        None
    }
}

// ---------------------------------------------------------------------------
// The frame object.
// ---------------------------------------------------------------------------

/// The fields gathered while walking the frame object's members.
pub struct PartialMsg {
    pub typ: Option<Vec<u8>>,
    pub version: Option<Vec<u8>>,
    pub origin: Option<Vec<u8>>,
    pub request_id: Option<Vec<u8>>,
    pub printer: Option<Vec<u8>>,
    pub format: Option<Vec<u8>>,
    pub data: Option<Vec<u8>>,
    pub options: Option<PrintOptions>,
}

pub struct PartialV {
    pub typ: Option<Seq<u8>>,
    pub version: Option<Seq<u8>>,
    pub origin: Option<Seq<u8>>,
    pub request_id: Option<Seq<u8>>,
    pub printer: Option<Seq<u8>>,
    pub format: Option<Seq<u8>>,
    pub data: Option<Seq<u8>>,
    pub options: Option<PrintOptionsV>,
}

impl View for PartialMsg {
    type V = PartialV;

    open spec fn view(&self) -> PartialV {
        PartialV {
            typ: crate::protocol::opt_bytes_view(self.typ),
            version: crate::protocol::opt_bytes_view(self.version),
            origin: crate::protocol::opt_bytes_view(self.origin),
            request_id: crate::protocol::opt_bytes_view(self.request_id),
            printer: crate::protocol::opt_bytes_view(self.printer),
            format: crate::protocol::opt_bytes_view(self.format),
            data: crate::protocol::opt_bytes_view(self.data),
            options: match self.options {
                Some(o) => Some(o@),
                None => None,
            },
        }
    }
}

pub open spec fn empty_partial() -> PartialV {
    PartialV {
        typ: None,
        version: None,
        origin: None,
        request_id: None,
        printer: None,
        format: None,
        data: None,
        options: None,
    }
}

pub open spec fn empty_options() -> PrintOptionsV {
    PrintOptionsV { copies: None, paper_size: None }
}

// ---------------------------------------------------------------------------
// The print options object.
// ---------------------------------------------------------------------------

/// Walk the members of the options object from `i` (after the opening brace
/// or a separator), accumulating onto `o`.
pub open spec fn parse_options_members(s: Seq<u8>, i: int, o: PrintOptionsV, first: bool)
    -> Result<(PrintOptionsV, int), Seq<u8>>
    decreases s.len() - i when 0 <= i <= s.len() via parse_options_members_decreases
{
    let j = skip_ws(s, i);
    if j >= s.len() {
        Err(reason_syntax())
    } else if s[j] == 0x7d {
        Ok((o, j + 1))
    } else if !first && s[j] != 0x2c {
        Err(reason_syntax())
    } else {
        let j2 = if first {
            j
        } else {
            skip_ws(s, j + 1)
        };
        match parse_string(s, j2) {
            None => Err(reason_syntax()),
            Some((key, j3)) => {
                let j4 = skip_ws(s, j3);
                if j4 >= s.len() || s[j4] != 0x3a {
                    Err(reason_syntax())
                } else {
                    let j5 = skip_ws(s, j4 + 1);
                    if key == txt("copies") {
                        if o.copies is Some {
                            Err(reason_duplicate())
                        } else {
                            match parse_copies(s, j5) {
                                Err(_) => Err(reason_field()),
                                Ok((v, j6)) => parse_options_members(
                                    s,
                                    j6,
                                    PrintOptionsV { copies: Some(v), ..o },
                                    false,
                                ),
                            }
                        }
                    } else if key == txt("paperSize") {
                        if o.paper_size is Some {
                            Err(reason_duplicate())
                        } else {
                            match parse_string(s, j5) {
                                None => Err(reason_field()),
                                Some((v, j6)) => parse_options_members(
                                    s,
                                    j6,
                                    PrintOptionsV { paper_size: Some(v), ..o },
                                    false,
                                ),
                            }
                        }
                    } else {
                        match skip_scalar(s, j5) {
                            None => Err(reason_field()),
                            Some(j6) => parse_options_members(s, j6, o, false),
                        }
                    }
                }
            },
        }
    }
}

#[via_fn]
proof fn parse_options_members_decreases(s: Seq<u8>, i: int, o: PrintOptionsV, first: bool) {
    lemma_skip_ws_bounds(s, i);
    let j = skip_ws(s, i);
    if j < s.len() && s[j] != 0x7d && (first || s[j] == 0x2c) {
        if !first {
            lemma_skip_ws_bounds(s, j + 1);
        }
        let j2 = if first {
            j
        } else {
            skip_ws(s, j + 1)
        };
        lemma_parse_string_bounds(s, j2);
        if let Some((key, j3)) = parse_string(s, j2) {
            lemma_skip_ws_bounds(s, j3);
            let j4 = skip_ws(s, j3);
            if j4 < s.len() && s[j4] == 0x3a {
                lemma_skip_ws_bounds(s, j4 + 1);
                let j5 = skip_ws(s, j4 + 1);
                if let Ok((v, j6)) = parse_copies(s, j5) {
                    lemma_parse_digits_bounds(s, j5, 0);
                }
                lemma_parse_string_bounds(s, j5);
                lemma_skip_scalar_bounds(s, j5);
            }
        }
    }
}

pub proof fn lemma_parse_options_members_bounds(s: Seq<u8>, i: int, o: PrintOptionsV,
    first: bool)
    requires
        0 <= i <= s.len(),
    ensures
        parse_options_members(s, i, o, first) matches Ok((o2, j)) ==> i <= j <= s.len(),
    decreases s.len() - i,
{
    lemma_skip_ws_bounds(s, i);
    let j = skip_ws(s, i);
    if j < s.len() && s[j] != 0x7d && (first || s[j] == 0x2c) {
        if !first {
            lemma_skip_ws_bounds(s, j + 1);
        }
        let j2 = if first {
            j
        } else {
            skip_ws(s, j + 1)
        };
        lemma_parse_string_bounds(s, j2);
        if let Some((key, j3)) = parse_string(s, j2) {
            lemma_skip_ws_bounds(s, j3);
            let j4 = skip_ws(s, j3);
            if j4 < s.len() && s[j4] == 0x3a {
                lemma_skip_ws_bounds(s, j4 + 1);
                let j5 = skip_ws(s, j4 + 1);
                if key == txt("copies") && o.copies is None {
                    if let Ok((v, j6)) = parse_copies(s, j5) {
                        lemma_parse_digits_bounds(s, j5, 0);
                        lemma_parse_options_members_bounds(
                            s,
                            j6,
                            PrintOptionsV { copies: Some(v), ..o },
                            false,
                        );
                    }
                } else if key == txt("paperSize") && o.paper_size is None {
                    lemma_parse_string_bounds(s, j5);
                    if let Some((v, j6)) = parse_string(s, j5) {
                        lemma_parse_options_members_bounds(
                            s,
                            j6,
                            PrintOptionsV { paper_size: Some(v), ..o },
                            false,
                        );
                    }
                } else if key != txt("copies") && key != txt("paperSize") {
                    lemma_skip_scalar_bounds(s, j5);
                    if let Some(j6) = skip_scalar(s, j5) {
                        lemma_parse_options_members_bounds(s, j6, o, false);
                    }
                }
            }
        }
    }
}

/// Parse the options object at `i`.
pub open spec fn parse_options(s: Seq<u8>, i: int) -> Result<(PrintOptionsV, int), Seq<u8>> {
    if 0 <= i < s.len() && s[i] == 0x7b {
        parse_options_members(s, i + 1, empty_options(), true)
    } else {
        Err(reason_field())
    }
}

/// Parse the options object at `i`.
fn parse_options_at(s: &[u8], i: usize) -> (r: Result<(PrintOptions, usize), DecodeError>)
    requires
        i <= s@.len(),
    ensures
        r matches Ok((o, j)) ==> parse_options(s@, i as int) == Ok::<_, Seq<u8>>((o@, j as int))
            && i < j <= s@.len(),
        r matches Err(e) ==> parse_options(s@, i as int) == Err::<(PrintOptionsV, int), _>(e@),
{
    proof {
        reveal_strlit("malformed JSON");
        reveal_strlit("duplicate field");
        reveal_strlit("invalid field value");
        reveal_strlit("copies");
        reveal_strlit("paperSize");
    }
    if i >= s.len() || s[i] != 0x7b {
        return Err(DecodeError { reason: crate::bytes::txt_vec("invalid field value") });
    }
    let mut o = PrintOptions { copies: None, paper_size: None };
    let mut k: usize = i + 1;
    let mut first: bool = true;
    loop
        invariant
            i + 1 <= k <= s@.len(),
            parse_options(s@, i as int) == parse_options_members(s@, k as int, o@, first),
        decreases s@.len() - k,
    {
        proof {
            reveal_strlit("malformed JSON");
            reveal_strlit("duplicate field");
            reveal_strlit("invalid field value");
            reveal_strlit("copies");
            reveal_strlit("paperSize");
            lemma_parse_options_members_bounds(s@, k as int, o@, first);
        }
        let j = skip_ws_from(s, k);
        if j >= s.len() {
            return Err(DecodeError { reason: crate::bytes::txt_vec("malformed JSON") });
        }
        if s[j] == 0x7d {
            return Ok((o, j + 1));
        }
        if !first && s[j] != 0x2c {
            return Err(DecodeError { reason: crate::bytes::txt_vec("malformed JSON") });
        }
        let j2 = if first {
            j
        } else {
            skip_ws_from(s, j + 1)
        };
        let (key, j3) = match parse_string_at(s, j2) {
            Some(kj) => kj,
            None => {
                return Err(DecodeError { reason: crate::bytes::txt_vec("malformed JSON") });
            },
        };
        let j4 = skip_ws_from(s, j3);
        if j4 >= s.len() || s[j4] != 0x3a {
            return Err(DecodeError { reason: crate::bytes::txt_vec("malformed JSON") });
        }
        let j5 = skip_ws_from(s, j4 + 1);
        if crate::bytes::bytes_eq_txt(key.as_slice(), "copies") {
            if o.copies.is_some() {
                return Err(DecodeError { reason: crate::bytes::txt_vec("duplicate field") });
            }
            match parse_copies_at(s, j5) {
                Err(()) => {
                    return Err(DecodeError {
                        reason: crate::bytes::txt_vec("invalid field value"),
                    });
                },
                Ok((v, j6)) => {
                    o.copies = Some(v);
                    k = j6;
                    first = false;
                },
            }
        } else if crate::bytes::bytes_eq_txt(key.as_slice(), "paperSize") {
            if o.paper_size.is_some() {
                return Err(DecodeError { reason: crate::bytes::txt_vec("duplicate field") });
            }
            match parse_string_at(s, j5) {
                None => {
                    return Err(DecodeError {
                        reason: crate::bytes::txt_vec("invalid field value"),
                    });
                },
                Some((v, j6)) => {
                    o.paper_size = Some(v);
                    k = j6;
                    first = false;
                },
            }
        } else {
            match skip_scalar_at(s, j5) {
                None => {
                    return Err(DecodeError {
                        reason: crate::bytes::txt_vec("invalid field value"),
                    });
                },
                Some(j6) => {
                    k = j6;
                    first = false;
                },
            }
        }
    }
}

// ---------------------------------------------------------------------------
// Frame members.
// ---------------------------------------------------------------------------

/// Read one member's value at `i` into the gathered fields, by its key: the
/// protocol's string fields, the options object, or an ignored scalar. A
/// field seen twice is refused.
pub open spec fn parse_member_value(s: Seq<u8>, i: int, p: PartialV, key: Seq<u8>) -> Result<
    (PartialV, int),
    Seq<u8>,
> {
    if key == txt("type") {
        if p.typ is Some {
            Err(reason_duplicate())
        } else {
            match parse_string(s, i) {
                None => Err(reason_field()),
                Some((v, j)) => Ok((PartialV { typ: Some(v), ..p }, j)),
            }
        }
    } else if key == txt("version") {
        if p.version is Some {
            Err(reason_duplicate())
        } else {
            match parse_string(s, i) {
                None => Err(reason_field()),
                Some((v, j)) => Ok((PartialV { version: Some(v), ..p }, j)),
            }
        }
    } else if key == txt("origin") {
        if p.origin is Some {
            Err(reason_duplicate())
        } else {
            match parse_string(s, i) {
                None => Err(reason_field()),
                Some((v, j)) => Ok((PartialV { origin: Some(v), ..p }, j)),
            }
        }
    } else if key == txt("requestId") {
        if p.request_id is Some {
            Err(reason_duplicate())
        } else {
            match parse_string(s, i) {
                None => Err(reason_field()),
                Some((v, j)) => Ok((PartialV { request_id: Some(v), ..p }, j)),
            }
        }
    } else if key == txt("printer") {
        if p.printer is Some {
            Err(reason_duplicate())
        } else {
            match parse_string(s, i) {
                None => Err(reason_field()),
                Some((v, j)) => Ok((PartialV { printer: Some(v), ..p }, j)),
            }
        }
    } else if key == txt("format") {
        if p.format is Some {
            Err(reason_duplicate())
        } else {
            match parse_string(s, i) {
                None => Err(reason_field()),
                Some((v, j)) => Ok((PartialV { format: Some(v), ..p }, j)),
            }
        }
    } else if key == txt("data") {
        if p.data is Some {
            Err(reason_duplicate())
        } else {
            match parse_string(s, i) {
                None => Err(reason_field()),
                Some((v, j)) => Ok((PartialV { data: Some(v), ..p }, j)),
            }
        }
    } else if key == txt("options") {
        if p.options is Some {
            Err(reason_duplicate())
        } else {
            match parse_options(s, i) {
                Err(r) => Err(r),
                Ok((o, j)) => Ok((PartialV { options: Some(o), ..p }, j)),
            }
        }
    } else {
        match skip_scalar(s, i) {
            None => Err(reason_field()),
            Some(j) => Ok((p, j)),
        }
    }
}

pub proof fn lemma_parse_member_value_bounds(s: Seq<u8>, i: int, p: PartialV, key: Seq<u8>)
    requires
        0 <= i <= s.len(),
    ensures
        parse_member_value(s, i, p, key) matches Ok((p2, j)) ==> i < j <= s.len(),
{
    lemma_parse_string_bounds(s, i);
    lemma_skip_scalar_bounds(s, i);
    if 0 <= i < s.len() && s[i] == 0x7b {
        lemma_parse_options_members_bounds(s, i + 1, empty_options(), true);
    }
}

/// Walk the members of the frame object from `i` (after the opening brace or
/// a separator), gathering fields onto `p`.
pub open spec fn parse_members(s: Seq<u8>, i: int, p: PartialV, first: bool) -> Result<
    (PartialV, int),
    Seq<u8>,
>
    decreases s.len() - i when 0 <= i <= s.len() via parse_members_decreases
{
    let j = skip_ws(s, i);
    if j >= s.len() {
        Err(reason_syntax())
    } else if s[j] == 0x7d {
        Ok((p, j + 1))
    } else if !first && s[j] != 0x2c {
        Err(reason_syntax())
    } else {
        let j2 = if first {
            j
        } else {
            skip_ws(s, j + 1)
        };
        match parse_string(s, j2) {
            None => Err(reason_syntax()),
            Some((key, j3)) => {
                let j4 = skip_ws(s, j3);
                if j4 >= s.len() || s[j4] != 0x3a {
                    Err(reason_syntax())
                } else {
                    let j5 = skip_ws(s, j4 + 1);
                    match parse_member_value(s, j5, p, key) {
                        Err(r) => Err(r),
                        Ok((p2, j6)) => parse_members(s, j6, p2, false),
                    }
                }
            },
        }
    }
}

#[via_fn]
proof fn parse_members_decreases(s: Seq<u8>, i: int, p: PartialV, first: bool) {
    lemma_skip_ws_bounds(s, i);
    let j = skip_ws(s, i);
    if j < s.len() && s[j] != 0x7d && (first || s[j] == 0x2c) {
        if !first {
            lemma_skip_ws_bounds(s, j + 1);
        }
        let j2 = if first {
            j
        } else {
            skip_ws(s, j + 1)
        };
        lemma_parse_string_bounds(s, j2);
        if let Some((key, j3)) = parse_string(s, j2) {
            lemma_skip_ws_bounds(s, j3);
            let j4 = skip_ws(s, j3);
            if j4 < s.len() && s[j4] == 0x3a {
                lemma_skip_ws_bounds(s, j4 + 1);
                lemma_parse_member_value_bounds(s, skip_ws(s, j4 + 1), p, key);
            }
        }
    }
}

pub proof fn lemma_parse_members_bounds(s: Seq<u8>, i: int, p: PartialV, first: bool)
    requires
        0 <= i <= s.len(),
    ensures
        parse_members(s, i, p, first) matches Ok((p2, j)) ==> i <= j <= s.len(),
    decreases s.len() - i,
{
    lemma_skip_ws_bounds(s, i);
    let j = skip_ws(s, i);
    if j < s.len() && s[j] != 0x7d && (first || s[j] == 0x2c) {
        if !first {
            lemma_skip_ws_bounds(s, j + 1);
        }
        let j2 = if first {
            j
        } else {
            skip_ws(s, j + 1)
        };
        lemma_parse_string_bounds(s, j2);
        if let Some((key, j3)) = parse_string(s, j2) {
            lemma_skip_ws_bounds(s, j3);
            let j4 = skip_ws(s, j3);
            if j4 < s.len() && s[j4] == 0x3a {
                lemma_skip_ws_bounds(s, j4 + 1);
                let j5 = skip_ws(s, j4 + 1);
                lemma_parse_member_value_bounds(s, j5, p, key);
                if let Ok((p2, j6)) = parse_member_value(s, j5, p, key) {
                    lemma_parse_members_bounds(s, j6, p2, false);
                }
            }
        }
    }
}

// ---------------------------------------------------------------------------
// Assembling the message.
// ---------------------------------------------------------------------------

/// Build the typed message from the gathered fields: the `type` field picks
/// the variant, whose required fields must all be present.
pub open spec fn assemble(p: PartialV) -> Result<ClientMsgV, Seq<u8>> {
    match p.typ {
        None => Err(reason_missing()),
        Some(t) => {
            if t == txt("hello") {
                match (p.version, p.origin) {
                    (Some(version), Some(origin)) => Ok(ClientMsgV::Hello { version, origin }),
                    _ => Err(reason_missing()),
                }
            } else if t == txt("get_printers") {
                Ok(ClientMsgV::GetPrinters)
            } else if t == txt("print") {
                match (p.request_id, p.printer, p.format, p.data, p.options) {
                    (Some(request_id), Some(printer), Some(format), Some(data), Some(options)) =>
                        Ok(ClientMsgV::Print { request_id, printer, format, data, options }),
                    _ => Err(reason_missing()),
                }
            } else if t == txt("read_scale") {
                Ok(ClientMsgV::ReadScale)
            } else {
                Err(reason_unknown_type())
            }
        },
    }
}

/// What every frame decodes to: the typed message, or the reason it is
/// refused. The frame must be one JSON object with nothing but whitespace
/// around it.
pub open spec fn spec_decode(s: Seq<u8>) -> Result<ClientMsgV, Seq<u8>> {
    let j = skip_ws(s, 0);
    if j >= s.len() || s[j] != 0x7b {
        Err(reason_syntax())
    } else {
        match parse_members(s, j + 1, empty_partial(), true) {
            Err(r) => Err(r),
            Ok((p, j2)) => {
                if skip_ws(s, j2) != s.len() {
                    Err(reason_trailing())
                } else {
                    assemble(p)
                }
            },
        }
    }
}

/// Read one member's value by its key.
fn apply_member(s: &[u8], i: usize, p: PartialMsg, key: &Vec<u8>) -> (r: Result<
    (PartialMsg, usize),
    DecodeError,
>)
    requires
        i <= s@.len(),
    ensures
        r matches Ok((p2, j)) ==> parse_member_value(s@, i as int, p@, key@) == Ok::<_, Seq<u8>>(
            (p2@, j as int),
        ) && i < j <= s@.len(),
        r matches Err(e) ==> parse_member_value(s@, i as int, p@, key@) == Err::<
            (PartialV, int),
            _,
        >(e@),
{
    proof {
        reveal_strlit("type");
        reveal_strlit("version");
        reveal_strlit("origin");
        reveal_strlit("requestId");
        reveal_strlit("printer");
        reveal_strlit("format");
        reveal_strlit("data");
        reveal_strlit("options");
        reveal_strlit("duplicate field");
        reveal_strlit("invalid field value");
        lemma_parse_member_value_bounds(s@, i as int, p@, key@);
    }
    let mut p = p;
    let k = key.as_slice();
    if crate::bytes::bytes_eq_txt(k, "type") {
        if p.typ.is_some() {
            return Err(DecodeError { reason: crate::bytes::txt_vec("duplicate field") });
        }
        match parse_string_at(s, i) {
            None => Err(DecodeError { reason: crate::bytes::txt_vec("invalid field value") }),
            Some((v, j)) => {
                p.typ = Some(v);
                Ok((p, j))
            },
        }
    } else if crate::bytes::bytes_eq_txt(k, "version") {
        if p.version.is_some() {
            return Err(DecodeError { reason: crate::bytes::txt_vec("duplicate field") });
        }
        match parse_string_at(s, i) {
            None => Err(DecodeError { reason: crate::bytes::txt_vec("invalid field value") }),
            Some((v, j)) => {
                p.version = Some(v);
                Ok((p, j))
            },
        }
    } else if crate::bytes::bytes_eq_txt(k, "origin") {
        if p.origin.is_some() {
            return Err(DecodeError { reason: crate::bytes::txt_vec("duplicate field") });
        }
        match parse_string_at(s, i) {
            None => Err(DecodeError { reason: crate::bytes::txt_vec("invalid field value") }),
            Some((v, j)) => {
                p.origin = Some(v);
                Ok((p, j))
            },
        }
    } else if crate::bytes::bytes_eq_txt(k, "requestId") {
        if p.request_id.is_some() {
            return Err(DecodeError { reason: crate::bytes::txt_vec("duplicate field") });
        }
        match parse_string_at(s, i) {
            None => Err(DecodeError { reason: crate::bytes::txt_vec("invalid field value") }),
            Some((v, j)) => {
                p.request_id = Some(v);
                Ok((p, j))
            },
        }
    } else if crate::bytes::bytes_eq_txt(k, "printer") {
        if p.printer.is_some() {
            return Err(DecodeError { reason: crate::bytes::txt_vec("duplicate field") });
        }
        match parse_string_at(s, i) {
            None => Err(DecodeError { reason: crate::bytes::txt_vec("invalid field value") }),
            Some((v, j)) => {
                p.printer = Some(v);
                Ok((p, j))
            },
        }
    } else if crate::bytes::bytes_eq_txt(k, "format") {
        if p.format.is_some() {
            return Err(DecodeError { reason: crate::bytes::txt_vec("duplicate field") });
        }
        match parse_string_at(s, i) {
            None => Err(DecodeError { reason: crate::bytes::txt_vec("invalid field value") }),
            Some((v, j)) => {
                p.format = Some(v);
                Ok((p, j))
            },
        }
    } else if crate::bytes::bytes_eq_txt(k, "data") {
        if p.data.is_some() {
            return Err(DecodeError { reason: crate::bytes::txt_vec("duplicate field") });
        }
        match parse_string_at(s, i) {
            None => Err(DecodeError { reason: crate::bytes::txt_vec("invalid field value") }),
            Some((v, j)) => {
                p.data = Some(v);
                Ok((p, j))
            },
        }
    } else if crate::bytes::bytes_eq_txt(k, "options") {
        if p.options.is_some() {
            return Err(DecodeError { reason: crate::bytes::txt_vec("duplicate field") });
        }
        match parse_options_at(s, i) {
            Err(e) => Err(e),
            Ok((o, j)) => {
                p.options = Some(o);
                Ok((p, j))
            },
        }
    } else {
        match skip_scalar_at(s, i) {
            None => Err(DecodeError { reason: crate::bytes::txt_vec("invalid field value") }),
            Some(j) => Ok((p, j)),
        }
    }
}

/// Build the typed message from the gathered fields.
fn assemble_message(p: PartialMsg) -> (r: Result<ClientMessage, DecodeError>)
    ensures
        r matches Ok(m) ==> assemble(p@) == Ok::<_, Seq<u8>>(m@),
        r matches Err(e) ==> assemble(p@) == Err::<ClientMsgV, _>(e@),
{
    proof {
        reveal_strlit("hello");
        reveal_strlit("get_printers");
        reveal_strlit("print");
        reveal_strlit("read_scale");
        reveal_strlit("missing required field");
        reveal_strlit("unknown message type");
    }
    let typ = match p.typ {
        None => {
            return Err(DecodeError { reason: crate::bytes::txt_vec("missing required field") });
        },
        Some(t) => t,
    };
    let t = typ.as_slice();
    if crate::bytes::bytes_eq_txt(t, "hello") {
        match (p.version, p.origin) {
            (Some(version), Some(origin)) => Ok(ClientMessage::Hello { version, origin }),
            _ => Err(DecodeError { reason: crate::bytes::txt_vec("missing required field") }),
        }
    } else if crate::bytes::bytes_eq_txt(t, "get_printers") {
        Ok(ClientMessage::GetPrinters)
    } else if crate::bytes::bytes_eq_txt(t, "print") {
        match (p.request_id, p.printer, p.format, p.data, p.options) {
            (Some(request_id), Some(printer), Some(format), Some(data), Some(options)) => Ok(
                ClientMessage::Print { request_id, printer, format, data, options },
            ),
            _ => Err(DecodeError { reason: crate::bytes::txt_vec("missing required field") }),
        }
    } else if crate::bytes::bytes_eq_txt(t, "read_scale") {
        Ok(ClientMessage::ReadScale)
    } else {
        Err(DecodeError { reason: crate::bytes::txt_vec("unknown message type") })
    }
}

/// Decode one inbound text frame into a typed client message, exactly as
/// `spec_decode` says: the typed message for a well-formed frame, and the
/// structured reason for any other frame.
pub fn decode_client_message(frame: &[u8]) -> (r: Result<ClientMessage, DecodeError>)
    ensures
        r matches Ok(m) ==> spec_decode(frame@) == Ok::<_, Seq<u8>>(m@),
        r matches Err(e) ==> spec_decode(frame@) == Err::<ClientMsgV, _>(e@),
{
    proof {
        reveal_strlit("malformed JSON");
        reveal_strlit("unexpected trailing characters");
    }
    let j = skip_ws_from(frame, 0);
    if j >= frame.len() || frame[j] != 0x7b {
        return Err(DecodeError { reason: crate::bytes::txt_vec("malformed JSON") });
    }
    let mut p = PartialMsg {
        typ: None,
        version: None,
        origin: None,
        request_id: None,
        printer: None,
        format: None,
        data: None,
        options: None,
    };
    let mut k: usize = j + 1;
    let mut first: bool = true;
    loop
        invariant
            j + 1 <= k <= frame@.len(),
            skip_ws(frame@, 0) == j,
            j < frame@.len() && frame@[j as int] == 0x7b,
            parse_members(frame@, j + 1, empty_partial(), true) == parse_members(
                frame@,
                k as int,
                p@,
                first,
            ),
        decreases frame@.len() - k,
    {
        proof {
            reveal_strlit("malformed JSON");
            lemma_parse_members_bounds(frame@, k as int, p@, first);
        }
        let j1 = skip_ws_from(frame, k);
        if j1 >= frame.len() {
            return Err(DecodeError { reason: crate::bytes::txt_vec("malformed JSON") });
        }
        if frame[j1] == 0x7d {
            // End of the object: nothing but whitespace may follow.
            let j3 = skip_ws_from(frame, j1 + 1);
            if j3 != frame.len() {
                proof {
                    reveal_strlit("unexpected trailing characters");
                }
                return Err(DecodeError {
                    reason: crate::bytes::txt_vec("unexpected trailing characters"),
                });
            }
            return assemble_message(p);
        }
        if !first && frame[j1] != 0x2c {
            return Err(DecodeError { reason: crate::bytes::txt_vec("malformed JSON") });
        }
        let j2 = if first {
            j1
        } else {
            skip_ws_from(frame, j1 + 1)
        };
        let (key, j3) = match parse_string_at(frame, j2) {
            Some(kj) => kj,
            None => {
                return Err(DecodeError { reason: crate::bytes::txt_vec("malformed JSON") });
            },
        };
        let j4 = skip_ws_from(frame, j3);
        if j4 >= frame.len() || frame[j4] != 0x3a {
            return Err(DecodeError { reason: crate::bytes::txt_vec("malformed JSON") });
        }
        let j5 = skip_ws_from(frame, j4 + 1);
        match apply_member(frame, j5, p, &key) {
            Err(e) => {
                return Err(e);
            },
            Ok((p2, j6)) => {
                p = p2;
                k = j6;
                first = false;
            },
        }
    }
}

/// A frame whose `type` field names none of the protocol's messages decodes
/// to the `unknown message type` error, never to a message.
pub proof fn lemma_unknown_type_rejected(p: PartialV, t: Seq<u8>)
    requires
        p.typ == Some(t),
        t != txt("hello"),
        t != txt("get_printers"),
        t != txt("print"),
        t != txt("read_scale"),
    ensures
        assemble(p) == Err::<ClientMsgV, Seq<u8>>(reason_unknown_type()),
{
}

// ---------------------------------------------------------------------------
// Encoding.
// ---------------------------------------------------------------------------

pub open spec fn hex_digit(x: u8) -> u8
    recommends
        x < 16,
{
    if x < 10 {
        (0x30 + x) as u8
    } else {
        (0x57 + x) as u8
    }
}

/// How one byte of string content is written: quote and backslash escaped,
/// control bytes as a four-digit escape, everything else as itself.
pub open spec fn esc_byte(b: u8) -> Seq<u8> {
    if b == 0x22 {
        seq![0x5cu8, 0x22u8]
    } else if b == 0x5c {
        seq![0x5cu8, 0x5cu8]
    } else if b < 0x20 {
        seq![0x5cu8, 0x75u8, 0x30u8, 0x30u8, hex_digit(b / 16), hex_digit(b % 16)]
    } else {
        seq![b]
    }
}

pub open spec fn esc(s: Seq<u8>) -> Seq<u8>
    decreases s.len(),
{
    if s.len() == 0 {
        Seq::empty()
    } else {
        esc_byte(s[0]) + esc(s.drop_first())
    }
}

pub proof fn lemma_esc_snoc(s: Seq<u8>, b: u8)
    ensures
        esc(s.push(b)) == esc(s) + esc_byte(b),
    decreases s.len(),
{
    if s.len() == 0 {
        assert(s.push(b)[0] == b);
        assert(s.push(b).len() == 1);
        assert(s.push(b).drop_first() =~= Seq::<u8>::empty());
        assert(esc(s.push(b)) == esc_byte(b) + esc(Seq::<u8>::empty()));
        assert(esc(Seq::<u8>::empty()) =~= Seq::<u8>::empty());
        assert(esc(s) == Seq::<u8>::empty());
        assert(esc_byte(b) + Seq::<u8>::empty() =~= esc_byte(b));
        assert(Seq::<u8>::empty() + esc_byte(b) =~= esc_byte(b));
        assert(esc(s.push(b)) =~= esc(s) + esc_byte(b));
    } else {
        assert(s.push(b)[0] == s[0]);
        assert(s.push(b).drop_first() =~= s.drop_first().push(b));
        lemma_esc_snoc(s.drop_first(), b);
        assert(esc(s.push(b)) == esc_byte(s[0]) + esc(s.drop_first().push(b)));
        assert(esc(s.push(b)) =~= esc(s) + esc_byte(b));
    }
}

/// A string value on the wire: its escaped content in quotes.
pub open spec fn json_str(s: Seq<u8>) -> Seq<u8> {
    seq![0x22u8] + esc(s) + seq![0x22u8]
}

/// The decimal digits of a number.
pub open spec fn dec_nat(n: nat) -> Seq<u8>
    decreases n,
{
    if n < 10 {
        seq![(0x30 + n) as u8]
    } else {
        dec_nat(n / 10).push((0x30 + n % 10) as u8)
    }
}

/// A possibly negative number in decimal.
pub open spec fn dec_int(w: int) -> Seq<u8> {
    if w < 0 {
        seq![0x2du8] + dec_nat((-w) as nat)
    } else {
        dec_nat(w as nat)
    }
}

pub open spec fn bool_txt(b: bool) -> Seq<u8> {
    if b {
        txt("true")
    } else {
        txt("false")
    }
}

/// String values joined by commas.
pub open spec fn str_list(xs: Seq<Seq<u8>>) -> Seq<u8>
    decreases xs.len(),
{
    if xs.len() == 0 {
        Seq::empty()
    } else if xs.len() == 1 {
        json_str(xs[0])
    } else {
        json_str(xs[0]) + seq![0x2cu8] + str_list(xs.drop_first())
    }
}

pub proof fn lemma_str_list_snoc(xs: Seq<Seq<u8>>, x: Seq<u8>)
    ensures
        xs.len() == 0 ==> str_list(xs.push(x)) == json_str(x),
        xs.len() > 0 ==> str_list(xs.push(x)) == str_list(xs) + seq![0x2cu8] + json_str(x),
    decreases xs.len(),
{
    if xs.len() == 0 {
        assert(xs.push(x)[0] == x);
    } else {
        assert(xs.push(x).drop_first() =~= xs.drop_first().push(x));
        lemma_str_list_snoc(xs.drop_first(), x);
        if xs.len() == 1 {
            assert(str_list(xs.push(x)) =~= str_list(xs) + seq![0x2cu8] + json_str(x));
        } else {
            assert(str_list(xs.push(x)) =~= str_list(xs) + seq![0x2cu8] + json_str(x));
        }
    }
}

/// One printer on the wire.
pub open spec fn printer_obj(p: crate::protocol::PrinterInfoV) -> Seq<u8> {
    txt("{\"id\":") + json_str(p.id) + txt(",\"name\":") + json_str(p.name) + txt(",\"type\":")
        + json_str(p.printer_type) + txt(",\"status\":") + json_str(p.status) + txt(
        ",\"isDefault\":",
    ) + bool_txt(p.is_default) + txt("}")
}

/// Printer objects joined by commas.
pub open spec fn printer_list(ps: Seq<crate::protocol::PrinterInfoV>) -> Seq<u8>
    decreases ps.len(),
{
    if ps.len() == 0 {
        Seq::empty()
    } else if ps.len() == 1 {
        printer_obj(ps[0])
    } else {
        printer_obj(ps[0]) + seq![0x2cu8] + printer_list(ps.drop_first())
    }
}

pub proof fn lemma_printer_list_snoc(ps: Seq<crate::protocol::PrinterInfoV>,
    p: crate::protocol::PrinterInfoV)
    ensures
        ps.len() == 0 ==> printer_list(ps.push(p)) == printer_obj(p),
        ps.len() > 0 ==> printer_list(ps.push(p)) == printer_list(ps) + seq![0x2cu8]
            + printer_obj(p),
    decreases ps.len(),
{
    if ps.len() == 0 {
        assert(ps.push(p)[0] == p);
    } else {
        assert(ps.push(p).drop_first() =~= ps.drop_first().push(p));
        lemma_printer_list_snoc(ps.drop_first(), p);
        assert(printer_list(ps.push(p)) =~= printer_list(ps) + seq![0x2cu8] + printer_obj(p));
    }
}

/// The text frame each server message is written as: one JSON object whose
/// `type` tag comes first, fields in declaration order, and the optional
/// `PrintResult` fields present exactly when they hold a value.
pub open spec fn spec_encode(m: crate::protocol::ServerMsgV) -> Seq<u8> {
    match m {
        crate::protocol::ServerMsgV::Welcome { connector_version, capabilities, printers } => {
            txt("{\"type\":\"welcome\",\"connectorVersion\":") + json_str(connector_version)
                + txt(",\"capabilities\":[") + str_list(capabilities) + txt("],\"printers\":[")
                + printer_list(printers) + txt("]}")
        },
        crate::protocol::ServerMsgV::Printers { printers } => {
            txt("{\"type\":\"printers\",\"printers\":[") + printer_list(printers) + txt("]}")
        },
        crate::protocol::ServerMsgV::PrintResult { request_id, success, message, error } => {
            txt("{\"type\":\"print_result\",\"requestId\":") + json_str(request_id) + txt(
                ",\"success\":",
            ) + bool_txt(success) + (match message {
                Some(msg) => txt(",\"message\":") + json_str(msg),
                None => Seq::empty(),
            }) + (match error {
                Some(e) => txt(",\"error\":") + json_str(e),
                None => Seq::empty(),
            }) + txt("}")
        },
        crate::protocol::ServerMsgV::ScaleReading { weight, unit, stable } => {
            txt("{\"type\":\"scale_reading\",\"weight\":") + dec_int(weight as int) + txt(
                ",\"unit\":",
            ) + json_str(unit) + txt(",\"stable\":") + bool_txt(stable) + txt("}")
        },
        crate::protocol::ServerMsgV::Error { message } => {
            txt("{\"type\":\"error\",\"message\":") + json_str(message) + txt("}")
        },
    }
}

/// Append a string value, escaped and quoted.
fn push_json_str(out: &mut Vec<u8>, s: &[u8])
    ensures
        final(out)@ == old(out)@ + json_str(s@),
{
    out.push(0x22);
    let mut i: usize = 0;
    while i < s.len()
        invariant
            0 <= i <= s@.len(),
            out@ == old(out)@ + seq![0x22u8] + esc(s@.take(i as int)),
        decreases s@.len() - i,
    {
        let b = s[i];
        if b == 0x22 {
            out.push(0x5c);
            out.push(0x22);
        } else if b == 0x5c {
            out.push(0x5c);
            out.push(0x5c);
        } else if b < 0x20 {
            out.push(0x5c);
            out.push(0x75);
            out.push(0x30);
            out.push(0x30);
            let hi = b / 16;
            let lo = b % 16;
            out.push(if hi < 10 {
                0x30 + hi
            } else {
                0x57 + hi
            });
            out.push(if lo < 10 {
                0x30 + lo
            } else {
                0x57 + lo
            });
        } else {
            out.push(b);
        }
        proof {
            assert(s@.take(i + 1) =~= s@.take(i as int).push(s@[i as int]));
            lemma_esc_snoc(s@.take(i as int), s@[i as int]);
            assert(out@ =~= old(out)@ + seq![0x22u8] + esc(s@.take(i + 1)));
        }
        i += 1;
    }
    out.push(0x22);
    proof {
        assert(s@.take(s@.len() as int) =~= s@);
        assert(out@ =~= old(out)@ + json_str(s@));
    }
}

/// Append a number in decimal.
fn push_u64_dec(out: &mut Vec<u8>, n: u64)
    ensures
        final(out)@ == old(out)@ + dec_nat(n as nat),
    decreases n,
{
    if n < 10 {
        out.push(0x30 + n as u8);
        proof {
            assert(out@ =~= old(out)@ + dec_nat(n as nat));
        }
    } else {
        push_u64_dec(out, n / 10);
        out.push(0x30 + (n % 10) as u8);
        proof {
            assert(out@ =~= old(out)@ + dec_nat(n as nat));
        }
    }
}

/// Append a possibly negative number in decimal.
fn push_i64_dec(out: &mut Vec<u8>, w: i64)
    ensures
        final(out)@ == old(out)@ + dec_int(w as int),
{
    if w >= 0 {
        push_u64_dec(out, w as u64);
    } else {
        out.push(0x2d);
        let m: u64 = if w == i64::MIN {
            9223372036854775808u64
        } else {
            (-w) as u64
        };
        proof {
            assert(m as nat == (-(w as int)) as nat);
        }
        push_u64_dec(out, m);
        proof {
            assert(out@ =~= old(out)@ + dec_int(w as int));
        }
    }
}

/// Append `true` or `false`.
fn push_bool(out: &mut Vec<u8>, b: bool)
    ensures
        final(out)@ == old(out)@ + bool_txt(b),
{
    proof {
        reveal_strlit("true");
        reveal_strlit("false");
    }
    if b {
        crate::bytes::push_txt(out, "true");
    } else {
        crate::bytes::push_txt(out, "false");
    }
}

/// Append one printer object.
fn push_printer(out: &mut Vec<u8>, p: &crate::protocol::PrinterInfo)
    ensures
        final(out)@ == old(out)@ + printer_obj(p@),
{
    proof {
        reveal_strlit("{\"id\":");
        reveal_strlit(",\"name\":");
        reveal_strlit(",\"type\":");
        reveal_strlit(",\"status\":");
        reveal_strlit(",\"isDefault\":");
        reveal_strlit("}");
    }
    crate::bytes::push_txt(out, "{\"id\":");
    push_json_str(out, p.id.as_slice());
    crate::bytes::push_txt(out, ",\"name\":");
    push_json_str(out, p.name.as_slice());
    crate::bytes::push_txt(out, ",\"type\":");
    push_json_str(out, p.printer_type.as_slice());
    crate::bytes::push_txt(out, ",\"status\":");
    push_json_str(out, p.status.as_slice());
    crate::bytes::push_txt(out, ",\"isDefault\":");
    push_bool(out, p.is_default);
    crate::bytes::push_txt(out, "}");
    proof {
        assert(out@ =~= old(out)@ + printer_obj(p@));
    }
}

/// Append a comma-separated list of printer objects.
fn push_printer_list(out: &mut Vec<u8>, ps: &Vec<crate::protocol::PrinterInfo>)
    ensures
        final(out)@ == old(out)@ + printer_list(crate::protocol::printers_view(ps@)),
{
    let mut i: usize = 0;
    while i < ps.len()
        invariant
            0 <= i <= ps@.len(),
            out@ == old(out)@ + printer_list(crate::protocol::printers_view(ps@).take(i as int)),
        decreases ps@.len() - i,
    {
        if i > 0 {
            out.push(0x2c);
        }
        push_printer(out, &ps[i]);
        proof {
            let pv = crate::protocol::printers_view(ps@);
            assert(pv.take(i + 1) =~= pv.take(i as int).push(pv[i as int]));
            lemma_printer_list_snoc(pv.take(i as int), pv[i as int]);
            assert(pv[i as int] == ps@[i as int]@);
            assert(out@ =~= old(out)@ + printer_list(pv.take(i + 1)));
        }
        i += 1;
    }
    proof {
        let pv = crate::protocol::printers_view(ps@);
        assert(pv.take(pv.len() as int) =~= pv);
    }
}

/// Append a comma-separated list of string values.
fn push_str_list(out: &mut Vec<u8>, xs: &Vec<Vec<u8>>)
    ensures
        final(out)@ == old(out)@ + str_list(crate::protocol::bytes_seq_view(xs@)),
{
    let mut i: usize = 0;
    while i < xs.len()
        invariant
            0 <= i <= xs@.len(),
            out@ == old(out)@ + str_list(crate::protocol::bytes_seq_view(xs@).take(i as int)),
        decreases xs@.len() - i,
    {
        if i > 0 {
            out.push(0x2c);
        }
        push_json_str(out, xs[i].as_slice());
        proof {
            let xv = crate::protocol::bytes_seq_view(xs@);
            assert(xv.take(i + 1) =~= xv.take(i as int).push(xv[i as int]));
            lemma_str_list_snoc(xv.take(i as int), xv[i as int]);
            assert(xv[i as int] == xs@[i as int]@);
            assert(out@ =~= old(out)@ + str_list(xv.take(i + 1)));
        }
        i += 1;
    }
    proof {
        let xv = crate::protocol::bytes_seq_view(xs@);
        assert(xv.take(xv.len() as int) =~= xv);
    }
}

/// Write one server message as a text frame, exactly as `spec_encode` says.
/// Encoding is total: it succeeds for every message.
pub fn encode_server_message(m: &crate::protocol::ServerMessage) -> (out: Vec<u8>)
    ensures
        out@ == spec_encode(m@),
{
    let mut out: Vec<u8> = Vec::new();
    match m {
        crate::protocol::ServerMessage::Welcome { connector_version, capabilities, printers } => {
            proof {
                reveal_strlit("{\"type\":\"welcome\",\"connectorVersion\":");
                reveal_strlit(",\"capabilities\":[");
                reveal_strlit("],\"printers\":[");
                reveal_strlit("]}");
            }
            crate::bytes::push_txt(&mut out, "{\"type\":\"welcome\",\"connectorVersion\":");
            push_json_str(&mut out, connector_version.as_slice());
            crate::bytes::push_txt(&mut out, ",\"capabilities\":[");
            push_str_list(&mut out, capabilities);
            crate::bytes::push_txt(&mut out, "],\"printers\":[");
            push_printer_list(&mut out, printers);
            crate::bytes::push_txt(&mut out, "]}");
            proof {
                assert(out@ =~= spec_encode(m@));
            }
        },
        crate::protocol::ServerMessage::Printers { printers } => {
            proof {
                reveal_strlit("{\"type\":\"printers\",\"printers\":[");
                reveal_strlit("]}");
            }
            crate::bytes::push_txt(&mut out, "{\"type\":\"printers\",\"printers\":[");
            push_printer_list(&mut out, printers);
            crate::bytes::push_txt(&mut out, "]}");
            proof {
                assert(out@ =~= spec_encode(m@));
            }
        },
        crate::protocol::ServerMessage::PrintResult { request_id, success, message, error } => {
            proof {
                reveal_strlit("{\"type\":\"print_result\",\"requestId\":");
                reveal_strlit(",\"success\":");
                reveal_strlit(",\"message\":");
                reveal_strlit(",\"error\":");
                reveal_strlit("}");
            }
            crate::bytes::push_txt(&mut out, "{\"type\":\"print_result\",\"requestId\":");
            push_json_str(&mut out, request_id.as_slice());
            crate::bytes::push_txt(&mut out, ",\"success\":");
            push_bool(&mut out, *success);
            if let Some(msg) = message {
                crate::bytes::push_txt(&mut out, ",\"message\":");
                push_json_str(&mut out, msg.as_slice());
            }
            if let Some(e) = error {
                crate::bytes::push_txt(&mut out, ",\"error\":");
                push_json_str(&mut out, e.as_slice());
            }
            crate::bytes::push_txt(&mut out, "}");
            proof {
                assert(out@ =~= spec_encode(m@));
            }
        },
        crate::protocol::ServerMessage::ScaleReading { weight, unit, stable } => {
            proof {
                reveal_strlit("{\"type\":\"scale_reading\",\"weight\":");
                reveal_strlit(",\"unit\":");
                reveal_strlit(",\"stable\":");
                reveal_strlit("}");
            }
            crate::bytes::push_txt(&mut out, "{\"type\":\"scale_reading\",\"weight\":");
            push_i64_dec(&mut out, *weight);
            crate::bytes::push_txt(&mut out, ",\"unit\":");
            push_json_str(&mut out, unit.as_slice());
            crate::bytes::push_txt(&mut out, ",\"stable\":");
            push_bool(&mut out, *stable);
            crate::bytes::push_txt(&mut out, "}");
            proof {
                assert(out@ =~= spec_encode(m@));
            }
        },
        crate::protocol::ServerMessage::Error { message } => {
            proof {
                reveal_strlit("{\"type\":\"error\",\"message\":");
                reveal_strlit("}");
            }
            crate::bytes::push_txt(&mut out, "{\"type\":\"error\",\"message\":");
            push_json_str(&mut out, message.as_slice());
            crate::bytes::push_txt(&mut out, "}");
            proof {
                assert(out@ =~= spec_encode(m@));
            }
        },
    }
    out
}

} // verus!
