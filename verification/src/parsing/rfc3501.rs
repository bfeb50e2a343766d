//! Parsers for the IMAP responses of RFC 3501, section 9.
//!
//! Every parser reads a text from the front and hands back what it did not
//! use. Its meaning is a spec function from the text to an `Outcome`; the
//! executable parser reads `s[pos..]` and `agrees` with that outcome.
use vstd::prelude::*;
use crate::lexicon::rfc3501::{
    AString, Address, EnvNAddress, Envelope, MessageData, MessageDataComponent, MsgAttComponent,
    MsgAttStatic, MsgAttStaticBodyNonStructuredComponent, MsgAttStaticBodyStructuredComponent,
    SpecAddress, SpecBodyNonStructured, SpecEnvelope, SpecMessageData, SpecMessageDataComponent,
    SpecMsgAttComponent, SpecMsgAttStatic, HeaderList, ContinueReq, Response, ResponseComponent,
    ResponseData, ResponseDone, ResponseFatal, ResponseTagged, SpecContinueReq, SpecResponse,
    SpecResponseComponent, SpecResponseData, SpecResponseDone, SpecResponseTagged, RespCondBye, RespCondState, RespText, RespTextCode, SectionMsgtext,
    SectionPart, SectionSpec, SectionSpecComponent, SectionText, SpecAString, SpecRespCondState,
    SpecRespText, SpecSectionMsgtext, SpecSectionSpec, SpecSectionSpecComponent, SpecSectionText,
    Tag, Text,
};
use crate::parsing::general::{
    agrees, expect, fail_as, lemma_prepend_prepend, no_longer, prepend, reject, shorter, spec_remove_start, Outcome,
    ParseFailure,
};
use crate::text::{
    chars_for_bytes, chars_for_bytes_at, contains, digits_to_u32, digits_within, find, find_at,
    first_in, first_in_at, first_non_digit_at, first_non_digit_from, first_word, lemma_chars_for_bytes_bounds,
    lemma_digit_split, lemma_find_from_bounds, lemma_first_in_from_bounds,
    lemma_first_non_digit_from_bounds, lemma_token_end_bounds, parse_u32, parses_as_i64, is_digit,
    split_once_char, starts_with, starts_with_at, string_of, token_end, token_end_at,
};

verus! {

broadcast use vstd::string::group_string_axioms;

/// The first character of `s`, or `d` when `s` is empty.
pub open spec fn first_or(s: Seq<char>, d: char) -> char {
    if s.len() > 0 {
        s[0]
    } else {
        d
    }
}

// ---------------------------------------------------------------------------
// text, tag, resp-text-code, resp-text
// ---------------------------------------------------------------------------

impl Text {
    /// Any text may start a `text`.
    pub open spec fn spec_can_parse(s: Seq<char>) -> bool {
        true
    }

    /// The characters up to the first CR or LF.
    pub open spec fn spec_parse(s: Seq<char>) -> Outcome<Seq<char>> {
        match first_in(s, "\n\r"@) {
            None => Outcome::Rejected("Text parse did not find end of line"@),
            Some(i) => match chars_for_bytes(s, i) {
                Some(k) => Outcome::Parsed(s.skip(k), s.take(k)),
                None => Outcome::Unhandled,
            },
        }
    }

    pub proof fn lemma_parse_len(s: Seq<char>)
        ensures
            no_longer(Self::spec_parse(s), s),
    {
        lemma_first_in_from_bounds(s, "\n\r"@, 0);
        if let Some(i) = first_in(s, "\n\r"@) {
            lemma_chars_for_bytes_bounds(s, i);
        }
    }

    pub fn can_parse(s: &Vec<char>, pos: usize) -> (b: bool)
        requires
            pos <= s.len(),
        ensures
            b == Self::spec_can_parse(s@.skip(pos as int)),
    {
        true
    }

    pub fn parse_new(s: &Vec<char>, pos: usize) -> (r: Result<(usize, Text), ParseFailure>)
        requires
            pos <= s.len(),
        ensures
            agrees(r, Self::spec_parse(s@.skip(pos as int)), s@),
    {
        let ghost w = s@.skip(pos as int);
        proof {
            lemma_first_in_from_bounds(w, "\n\r"@, 0);
        }
        match first_in_at(s, pos, s.len(), "\n\r") {
            None => reject("Text parse did not find end of line"),
            Some(i) => match chars_for_bytes_at(s, pos, s.len(), i - pos) {
                Some(k) => {
                    proof {
                        lemma_chars_for_bytes_bounds(w, i - pos);
                        assert(s@.skip(k as int) == w.skip(k - pos));
                        assert(s@.subrange(pos as int, k as int) == w.take(k - pos));
                    }
                    Ok((k, Text { text: string_of(s, pos, k) }))
                },
                None => Err(ParseFailure::Unhandled),
            },
        }
    }
}

impl Tag {
    /// Any text may start a `tag`.
    pub open spec fn spec_can_parse(s: Seq<char>) -> bool {
        true
    }

    /// The characters up to the first of `(){ %*"\+`.
    pub open spec fn spec_parse(s: Seq<char>) -> Outcome<Seq<char>> {
        match token_end(s, "(){ %*\"\\+"@) {
            Some(k) => Outcome::Parsed(s.skip(k), s.take(k)),
            None => Outcome::Unhandled,
        }
    }

    pub fn can_parse(s: &Vec<char>, pos: usize, end: usize) -> (b: bool)
        requires
            pos <= end <= s.len(),
        ensures
            b == Self::spec_can_parse(s@.subrange(pos as int, end as int)),
    {
        true
    }

    /// Parses a tag from the window `s[pos..end]`.
    pub fn parse_new(s: &Vec<char>, pos: usize, end: usize) -> (r: Result<(usize, Tag), ParseFailure>)
        requires
            pos <= end <= s.len(),
        ensures
            agrees(r, Self::spec_parse(s@.subrange(pos as int, end as int)), s@.take(end as int)),
    {
        let ghost w = s@.subrange(pos as int, end as int);
        proof {
            lemma_token_end_bounds(w, "(){ %*\"\\+"@);
        }
        match token_end_at(s, pos, end, "(){ %*\"\\+") {
            Some(k) => {
                assert(s@.take(end as int).skip(k as int) == w.skip(k - pos));
                assert(s@.subrange(pos as int, k as int) == w.take(k - pos));
                Ok((k, Tag { chars: string_of(s, pos, k) }))
            },
            None => Err(ParseFailure::Unhandled),
        }
    }
}

impl RespTextCode {
    /// `[` ... `] `
    pub open spec fn spec_can_parse(s: Seq<char>) -> bool {
        starts_with(s, "["@) && contains(s, "] "@)
    }

    /// Skips past the first `] `; every code reads as `Alert`.
    pub open spec fn spec_parse(s: Seq<char>) -> Outcome<RespTextCode> {
        match find(s, "] "@) {
            Some(i) => Outcome::Parsed(s.skip(i + 2), RespTextCode::Alert),
            None => Outcome::Unhandled,
        }
    }

    pub proof fn lemma_parse_len(s: Seq<char>)
        ensures
            no_longer(Self::spec_parse(s), s),
    {
        lemma_find_from_bounds(s, "] "@, 0);
        reveal_strlit("] ");
    }

    pub fn can_parse(s: &Vec<char>, pos: usize) -> (b: bool)
        requires
            pos <= s.len(),
        ensures
            b == Self::spec_can_parse(s@.skip(pos as int)),
    {
        starts_with_at(s, pos, s.len(), "[") && find_at(s, pos, s.len(), "] ").is_some()
    }

    pub fn parse_new(s: &Vec<char>, pos: usize) -> (r: Result<(usize, RespTextCode), ParseFailure>)
        requires
            pos <= s.len(),
        ensures
            agrees(r, Self::spec_parse(s@.skip(pos as int)), s@),
    {
        let ghost w = s@.skip(pos as int);
        proof {
            lemma_find_from_bounds(w, "] "@, 0);
            reveal_strlit("] ");
        }
        match find_at(s, pos, s.len(), "] ") {
            Some(i) => {
                assert(s@.skip(i + 2) == w.skip(i - pos + 2));
                Ok((i + 2, RespTextCode::Alert))
            },
            None => Err(ParseFailure::Unhandled),
        }
    }
}

impl RespText {
    /// Any text may start a `resp-text`.
    pub open spec fn spec_can_parse(s: Seq<char>) -> bool {
        true
    }

    /// An optional `resp-text-code`, then a `text`.
    pub open spec fn spec_parse(s: Seq<char>) -> Outcome<SpecRespText> {
        if RespTextCode::spec_can_parse(s) {
            match RespTextCode::spec_parse(s) {
                Outcome::Parsed(r, code) => match Text::spec_parse(r) {
                    Outcome::Parsed(r2, text) => Outcome::Parsed(
                        r2,
                        SpecRespText { resp_text_code: Some(code), text },
                    ),
                    o => fail_as(o),
                },
                o => fail_as(o),
            }
        } else {
            match Text::spec_parse(s) {
                Outcome::Parsed(r, text) => Outcome::Parsed(
                    r,
                    SpecRespText { resp_text_code: None, text },
                ),
                o => fail_as(o),
            }
        }
    }

    pub proof fn lemma_parse_len(s: Seq<char>)
        ensures
            no_longer(Self::spec_parse(s), s),
    {
        RespTextCode::lemma_parse_len(s);
        Text::lemma_parse_len(s);
        if let Outcome::Parsed(r, _) = RespTextCode::spec_parse(s) {
            Text::lemma_parse_len(r);
        }
    }

    pub fn can_parse(s: &Vec<char>, pos: usize) -> (b: bool)
        requires
            pos <= s.len(),
        ensures
            b == Self::spec_can_parse(s@.skip(pos as int)),
    {
        true
    }

    pub fn parse_new(s: &Vec<char>, pos: usize) -> (r: Result<(usize, RespText), ParseFailure>)
        requires
            pos <= s.len(),
        ensures
            agrees(r, Self::spec_parse(s@.skip(pos as int)), s@),
    {
        if RespTextCode::can_parse(s, pos) {
            let (p, code) = RespTextCode::parse_new(s, pos)?;
            let (p2, text) = Text::parse_new(s, p)?;
            Ok((p2, RespText { resp_text_code: Some(code), text }))
        } else {
            let (p, text) = Text::parse_new(s, pos)?;
            Ok((p, RespText { resp_text_code: None, text }))
        }
    }
}

// ---------------------------------------------------------------------------
// resp-cond-bye, resp-cond-state
// ---------------------------------------------------------------------------

impl RespCondBye {
    pub open spec fn spec_can_parse(s: Seq<char>) -> bool {
        starts_with(s, "BYE "@)
    }

    /// `BYE ` then a `resp-text`.
    pub open spec fn spec_parse(s: Seq<char>) -> Outcome<SpecRespText> {
        match spec_remove_start("BYE "@, s) {
            Outcome::Parsed(r, _) => RespText::spec_parse(r),
            o => fail_as(o),
        }
    }

    pub proof fn lemma_parse_len(s: Seq<char>)
        ensures
            shorter(Self::spec_parse(s), s),
    {
        reveal_strlit("BYE ");
        if starts_with(s, "BYE "@) {
            RespText::lemma_parse_len(s.skip(4));
        }
    }

    pub fn can_parse(s: &Vec<char>, pos: usize) -> (b: bool)
        requires
            pos <= s.len(),
        ensures
            b == Self::spec_can_parse(s@.skip(pos as int)),
    {
        starts_with_at(s, pos, s.len(), "BYE ")
    }

    pub fn parse_new(s: &Vec<char>, pos: usize) -> (r: Result<(usize, RespCondBye), ParseFailure>)
        requires
            pos <= s.len(),
        ensures
            agrees(r, Self::spec_parse(s@.skip(pos as int)), s@),
    {
        let (p, _) = expect(s, pos, "BYE ")?;
        let (p2, resp_text) = RespText::parse_new(s, p)?;
        Ok((p2, RespCondBye { resp_text }))
    }
}

impl RespCondState {
    pub open spec fn spec_can_parse(s: Seq<char>) -> bool {
        starts_with(s, "OK "@) || starts_with(s, "NO "@) || starts_with(s, "BAD "@)
    }

    /// `OK `, `NO ` or `BAD `, then a `resp-text`.
    pub open spec fn spec_parse(s: Seq<char>) -> Outcome<SpecRespCondState> {
        if starts_with(s, "OK "@) {
            match RespText::spec_parse(s.skip(3)) {
                Outcome::Parsed(r, t) => Outcome::Parsed(r, SpecRespCondState::OK(t)),
                o => fail_as(o),
            }
        } else if starts_with(s, "NO "@) {
            match RespText::spec_parse(s.skip(3)) {
                Outcome::Parsed(r, t) => Outcome::Parsed(r, SpecRespCondState::No(t)),
                o => fail_as(o),
            }
        } else if starts_with(s, "BAD "@) {
            match RespText::spec_parse(s.skip(4)) {
                Outcome::Parsed(r, t) => Outcome::Parsed(r, SpecRespCondState::Bad(t)),
                o => fail_as(o),
            }
        } else {
            Outcome::Rejected("RespCondState didn't match"@)
        }
    }

    pub proof fn lemma_parse_len(s: Seq<char>)
        ensures
            shorter(Self::spec_parse(s), s),
    {
        reveal_strlit("OK ");
        reveal_strlit("NO ");
        reveal_strlit("BAD ");
        if s.len() >= 3 {
            RespText::lemma_parse_len(s.skip(3));
        }
        if s.len() >= 4 {
            RespText::lemma_parse_len(s.skip(4));
        }
    }

    pub fn can_parse(s: &Vec<char>, pos: usize) -> (b: bool)
        requires
            pos <= s.len(),
        ensures
            b == Self::spec_can_parse(s@.skip(pos as int)),
    {
        starts_with_at(s, pos, s.len(), "OK ") || starts_with_at(s, pos, s.len(), "NO ")
            || starts_with_at(s, pos, s.len(), "BAD ")
    }

    pub fn parse_new(s: &Vec<char>, pos: usize) -> (r: Result<(usize, RespCondState), ParseFailure>)
        requires
            pos <= s.len(),
        ensures
            agrees(r, Self::spec_parse(s@.skip(pos as int)), s@),
    {
        let ghost w = s@.skip(pos as int);
        proof {
            reveal_strlit("OK ");
            reveal_strlit("NO ");
            reveal_strlit("BAD ");
        }
        if starts_with_at(s, pos, s.len(), "OK ") {
            assert(s@.skip(pos + 3) == w.skip(3));
            let (p, t) = RespText::parse_new(s, pos + 3)?;
            Ok((p, RespCondState::OK(t)))
        } else if starts_with_at(s, pos, s.len(), "NO ") {
            assert(s@.skip(pos + 3) == w.skip(3));
            let (p, t) = RespText::parse_new(s, pos + 3)?;
            Ok((p, RespCondState::No(t)))
        } else if starts_with_at(s, pos, s.len(), "BAD ") {
            assert(s@.skip(pos + 4) == w.skip(4));
            let (p, t) = RespText::parse_new(s, pos + 4)?;
            Ok((p, RespCondState::Bad(t)))
        } else {
            reject("RespCondState didn't match")
        }
    }
}

// ---------------------------------------------------------------------------
// number, string, nstring, astring
// ---------------------------------------------------------------------------

/// `number` / `nz-number` may start here: the first space-separated word
/// reads as a 64-bit signed integer.
pub open spec fn spec_can_parse_nz_number(s: Seq<char>) -> bool {
    parses_as_i64(first_word(s))
}

/// The leading decimal digits, read as a `u32`; `Unhandled` when there are
/// none or their value does not fit.
pub open spec fn spec_parse_nz_number(s: Seq<char>) -> Outcome<u32> {
    let e = match first_non_digit_from(s, 0) {
        Some(i) => chars_for_bytes(s, i),
        None => Some(s.len() as int),
    };
    match e {
        Some(k) => match parse_u32(s.take(k)) {
            Some(n) => Outcome::Parsed(s.skip(k), n),
            None => Outcome::Unhandled,
        },
        None => Outcome::Unhandled,
    }
}

pub proof fn lemma_parse_nz_number_len(s: Seq<char>)
    ensures
        shorter(spec_parse_nz_number(s), s),
{
    lemma_digit_split(s);
    lemma_first_non_digit_from_bounds(s, 0);
}

/// Whether a number may start in the window `s[pos..end]`.
pub fn can_parse_nz_number(s: &Vec<char>, pos: usize, end: usize) -> (b: bool)
    requires
        pos <= end <= s.len(),
    ensures
        b == spec_can_parse_nz_number(s@.subrange(pos as int, end as int)),
{
    let ghost w = s@.subrange(pos as int, end as int);
    proof {
        reveal_strlit(" ");
        assert(" "@ =~= seq![' ']);
        lemma_first_in_from_bounds(w, " "@, 0);
    }
    let t_end = match first_in_at(s, pos, end, " ") {
        Some(i) => i,
        None => end,
    };
    assert(first_word(w) == s@.subrange(pos as int, t_end as int));
    if t_end > pos && s[pos] == '-' {
        assert(s@.subrange(pos as int, t_end as int).drop_first() == s@.subrange(pos + 1, t_end as int));
        digits_within(s, pos + 1, t_end, 0x8000_0000_0000_0000)
    } else if t_end > pos && s[pos] == '+' {
        assert(s@.subrange(pos as int, t_end as int).drop_first() == s@.subrange(pos + 1, t_end as int));
        digits_within(s, pos + 1, t_end, 0x7fff_ffff_ffff_ffff)
    } else {
        digits_within(s, pos, t_end, 0x7fff_ffff_ffff_ffff)
    }
}

/// Parses a number from the window `s[pos..end]`.
pub fn parse_nz_number(s: &Vec<char>, pos: usize, end: usize) -> (r: Result<(usize, u32), ParseFailure>)
    requires
        pos <= end <= s.len(),
    ensures
        agrees(r, spec_parse_nz_number(s@.subrange(pos as int, end as int)), s@.take(end as int)),
{
    let ghost w = s@.subrange(pos as int, end as int);
    proof {
        lemma_digit_split(w);
        lemma_first_non_digit_from_bounds(w, 0);
    }
    let k = match first_non_digit_at(s, pos, end) {
        Some(i) => i,
        None => end,
    };
    assert(s@.subrange(pos as int, k as int) == w.take(k - pos));
    assert(s@.take(end as int).skip(k as int) == w.skip(k - pos));
    if digits_within(s, pos, k, 0xffff_ffff) {
        let n = digits_to_u32(s, pos, k);
        assert(w.take(k - pos)[0] != '+') by {
            assert(crate::text::is_digit(w.take(k - pos)[0]));
        }
        Ok((k, n))
    } else {
        proof {
            if k > pos {
                assert(crate::text::is_digit(w.take(k - pos)[0]));
            }
        }
        Err(ParseFailure::Unhandled)
    }
}

/// `string` may start here: `{` (a literal) or `"` (a quoted string).
pub open spec fn spec_can_parse_string(s: Seq<char>) -> bool {
    starts_with(s, "{"@) || starts_with(s, "\""@)
}

/// A literal `{n}` CRLF followed by `n` bytes of text, or a quoted string
/// that ends before the first CR, LF or `"`.
pub open spec fn spec_parse_string(s: Seq<char>) -> Outcome<Seq<char>> {
    if starts_with(s, "{"@) {
        match spec_parse_nz_number(s.skip(1)) {
            Outcome::Parsed(r, n) => match spec_remove_start("}\r\n"@, r) {
                Outcome::Parsed(r2, _) => match chars_for_bytes(r2, n as int) {
                    Some(k) => Outcome::Parsed(r2.skip(k), r2.take(k)),
                    None => Outcome::Unhandled,
                },
                o => fail_as(o),
            },
            o => fail_as(o),
        }
    } else if starts_with(s, "\""@) {
        let r = s.skip(1);
        match token_end(r, "\r\n\""@) {
            Some(k) => match spec_remove_start("\""@, r.skip(k)) {
                Outcome::Parsed(r2, _) => Outcome::Parsed(r2, r.take(k)),
                o => fail_as(o),
            },
            None => Outcome::Unhandled,
        }
    } else {
        Outcome::Rejected("String parse error"@)
    }
}

pub proof fn lemma_parse_string_len(s: Seq<char>)
    ensures
        shorter(spec_parse_string(s), s),
{
    reveal_strlit("{");
    reveal_strlit("\"");
    reveal_strlit("}\r\n");
    if starts_with(s, "{"@) {
        lemma_parse_nz_number_len(s.skip(1));
        if let Outcome::Parsed(r, n) = spec_parse_nz_number(s.skip(1)) {
            if starts_with(r, "}\r\n"@) {
                lemma_chars_for_bytes_bounds(r.skip(3), n as int);
            }
        }
    } else if starts_with(s, "\""@) {
        lemma_token_end_bounds(s.skip(1), "\r\n\""@);
    }
}

pub fn can_parse_string(s: &Vec<char>, pos: usize) -> (b: bool)
    requires
        pos <= s.len(),
    ensures
        b == spec_can_parse_string(s@.skip(pos as int)),
{
    starts_with_at(s, pos, s.len(), "{") || starts_with_at(s, pos, s.len(), "\"")
}

pub fn parse_string(s: &Vec<char>, pos: usize) -> (r: Result<(usize, String), ParseFailure>)
    requires
        pos <= s.len(),
    ensures
        agrees(r, spec_parse_string(s@.skip(pos as int)), s@),
{
    let ghost w = s@.skip(pos as int);
    proof {
        reveal_strlit("{");
        reveal_strlit("\"");
    }
    if starts_with_at(s, pos, s.len(), "{") {
        assert(s@.subrange(pos + 1, s.len() as int) == w.skip(1));
        assert(s@.take(s.len() as int) == s@);
        let (p1, n) = parse_nz_number(s, pos + 1, s.len())?;
        let (p2, _) = expect(s, p1, "}\r\n")?;
        match chars_for_bytes_at(s, p2, s.len(), n as usize) {
            Some(k) => {
                proof {
                    lemma_chars_for_bytes_bounds(s@.skip(p2 as int), n as int);
                }
                assert(s@.subrange(p2 as int, s.len() as int) == s@.skip(p2 as int));
                assert(s@.subrange(p2 as int, k as int) == s@.skip(p2 as int).take(k - p2));
                assert(s@.skip(k as int) == s@.skip(p2 as int).skip(k - p2));
                Ok((k, string_of(s, p2, k)))
            },
            None => {
                assert(s@.subrange(p2 as int, s.len() as int) == s@.skip(p2 as int));
                Err(ParseFailure::Unhandled)
            },
        }
    } else if starts_with_at(s, pos, s.len(), "\"") {
        let ghost r = w.skip(1);
        assert(s@.subrange(pos + 1, s.len() as int) == r);
        proof {
            lemma_token_end_bounds(r, "\r\n\""@);
        }
        match token_end_at(s, pos + 1, s.len(), "\r\n\"") {
            Some(k) => {
                assert(s@.skip(k as int) == r.skip(k - pos - 1));
                assert(s@.subrange(pos + 1, k as int) == r.take(k - pos - 1));
                let (p2, _) = expect(s, k, "\"")?;
                Ok((p2, string_of(s, pos + 1, k)))
            },
            None => Err(ParseFailure::Unhandled),
        }
    } else {
        reject("String parse error")
    }
}

/// `nstring` may start here.
pub open spec fn spec_can_parse_nstring(s: Seq<char>) -> bool {
    spec_can_parse_string(s) || starts_with(s, "NIL"@)
}

/// `NIL` (no string) or a `string`.
pub open spec fn spec_parse_nstring(s: Seq<char>) -> Outcome<Option<Seq<char>>> {
    if starts_with(s, "NIL"@) {
        Outcome::Parsed(s.skip(3), None)
    } else if spec_can_parse_string(s) {
        match spec_parse_string(s) {
            Outcome::Parsed(r, v) => Outcome::Parsed(r, Some(v)),
            o => fail_as(o),
        }
    } else {
        Outcome::Rejected("Nstring parse error"@)
    }
}

pub proof fn lemma_parse_nstring_len(s: Seq<char>)
    ensures
        shorter(spec_parse_nstring(s), s),
{
    reveal_strlit("NIL");
    lemma_parse_string_len(s);
}

pub fn can_parse_nstring(s: &Vec<char>, pos: usize) -> (b: bool)
    requires
        pos <= s.len(),
    ensures
        b == spec_can_parse_nstring(s@.skip(pos as int)),
{
    can_parse_string(s, pos) || starts_with_at(s, pos, s.len(), "NIL")
}

pub fn parse_nstring(s: &Vec<char>, pos: usize) -> (r: Result<(usize, Option<String>), ParseFailure>)
    requires
        pos <= s.len(),
    ensures
        agrees(r, spec_parse_nstring(s@.skip(pos as int)), s@),
{
    proof {
        reveal_strlit("NIL");
    }
    if starts_with_at(s, pos, s.len(), "NIL") {
        assert(s@.skip(pos + 3) == s@.skip(pos as int).skip(3));
        Ok((pos + 3, None))
    } else if can_parse_string(s, pos) {
        let (p, v) = parse_string(s, pos)?;
        Ok((p, Some(v)))
    } else {
        reject("Nstring parse error")
    }
}

impl AString {
    /// The first character is not one of `(){ %*"\` (an empty text counts
    /// as starting with LF), or a `string` starts here.
    pub open spec fn spec_can_parse(s: Seq<char>) -> bool {
        !"(){ %*\"\\"@.contains(first_or(s, '\n')) || spec_can_parse_string(s)
    }

    /// A `string`, or the characters up to the first of `(){ CR%*"\`.
    pub open spec fn spec_parse(s: Seq<char>) -> Outcome<SpecAString> {
        if spec_can_parse_string(s) {
            match spec_parse_string(s) {
                Outcome::Parsed(r, v) => Outcome::Parsed(r, SpecAString::String(v)),
                o => fail_as(o),
            }
        } else if !"(){ \r%*\"\\"@.contains(first_or(s, '\r')) {
            match token_end(s, "(){ \r%*\"\\"@) {
                Some(k) => Outcome::Parsed(s.skip(k), SpecAString::Achars(s.take(k))),
                None => Outcome::Unhandled,
            }
        } else {
            Outcome::Rejected("Astring parsing failure"@)
        }
    }

    pub proof fn lemma_parse_len(s: Seq<char>)
        ensures
            no_longer(Self::spec_parse(s), s),
    {
        lemma_parse_string_len(s);
        lemma_token_end_bounds(s, "(){ \r%*\"\\"@);
    }

    pub fn can_parse(s: &Vec<char>, pos: usize) -> (b: bool)
        requires
            pos <= s.len(),
        ensures
            b == Self::spec_can_parse(s@.skip(pos as int)),
    {
        let c = if pos < s.len() {
            s[pos]
        } else {
            '\n'
        };
        !crate::text::char_in("(){ %*\"\\", c) || can_parse_string(s, pos)
    }

    pub fn parse_new(s: &Vec<char>, pos: usize) -> (r: Result<(usize, AString), ParseFailure>)
        requires
            pos <= s.len(),
        ensures
            agrees(r, Self::spec_parse(s@.skip(pos as int)), s@),
    {
        let ghost w = s@.skip(pos as int);
        if can_parse_string(s, pos) {
            let (p, v) = parse_string(s, pos)?;
            return Ok((p, AString::String(v)));
        }
        let c = if pos < s.len() {
            s[pos]
        } else {
            '\r'
        };
        if !crate::text::char_in("(){ \r%*\"\\", c) {
            proof {
                lemma_token_end_bounds(w, "(){ \r%*\"\\"@);
            }
            assert(s@.subrange(pos as int, s.len() as int) == w);
            match token_end_at(s, pos, s.len(), "(){ \r%*\"\\") {
                Some(k) => {
                    assert(s@.skip(k as int) == w.skip(k - pos));
                    assert(s@.subrange(pos as int, k as int) == w.take(k - pos));
                    Ok((k, AString::Achars(string_of(s, pos, k))))
                },
                None => Err(ParseFailure::Unhandled),
            }
        } else {
            reject("Astring parsing failure")
        }
    }
}

/// Parses a number from `s[pos..]`.
pub fn parse_number(s: &Vec<char>, pos: usize) -> (r: Result<(usize, u32), ParseFailure>)
    requires
        pos <= s.len(),
    ensures
        agrees(r, spec_parse_nz_number(s@.skip(pos as int)), s@),
{
    assert(s@.take(s.len() as int) == s@);
    parse_nz_number(s, pos, s.len())
}

// ---------------------------------------------------------------------------
// section, section-spec, section-part, section-text, section-msgtext,
// header-list
// ---------------------------------------------------------------------------

/// `s` starts with a decimal digit.
pub open spec fn digit_start(s: Seq<char>) -> bool {
    s.len() > 0 && is_digit(s[0])
}

/// The numbers of a `section-part` after its first: each is `.` and a
/// number, for as long as a digit follows the `.`.
pub open spec fn section_part_items(s: Seq<char>) -> Outcome<Seq<u32>>
    decreases s.len(),
{
    if starts_with(s, "."@) && digit_start(s.skip(1)) {
        match spec_parse_nz_number(s.skip(1)) {
            Outcome::Parsed(r, n) => {
                proof {
                    reveal_strlit(".");
                    lemma_parse_nz_number_len(s.skip(1));
                }
                prepend(seq![n], section_part_items(r))
            },
            o => fail_as(o),
        }
    } else {
        Outcome::Parsed(s, seq![])
    }
}

proof fn lemma_section_part_items_len(s: Seq<char>)
    ensures
        no_longer(section_part_items(s), s),
    decreases s.len(),
{
    reveal_strlit(".");
    if starts_with(s, "."@) && digit_start(s.skip(1)) {
        lemma_parse_nz_number_len(s.skip(1));
        if let Outcome::Parsed(r, _) = spec_parse_nz_number(s.skip(1)) {
            lemma_section_part_items_len(r);
        }
    }
}

fn dot_digit_at(s: &Vec<char>, pos: usize) -> (b: bool)
    requires
        pos <= s.len(),
    ensures
        b == (starts_with(s@.skip(pos as int), "."@) && digit_start(s@.skip(pos as int).skip(1))),
{
    proof {
        reveal_strlit(".");
    }
    if starts_with_at(s, pos, s.len(), ".") {
        assert(s@.skip(pos + 1) == s@.skip(pos as int).skip(1));
        digit_at(s, pos + 1)
    } else {
        false
    }
}

fn digit_at(s: &Vec<char>, pos: usize) -> (b: bool)
    requires
        pos <= s.len(),
    ensures
        b == digit_start(s@.skip(pos as int)),
{
    pos < s.len() && '0' <= s[pos] && s[pos] <= '9'
}

impl SectionPart {
    /// A `section-part` starts with a digit.
    pub open spec fn spec_can_parse(s: Seq<char>) -> bool {
        digit_start(s)
    }

    /// `nz-number` *(`.` `nz-number`).
    pub open spec fn spec_parse(s: Seq<char>) -> Outcome<Seq<u32>> {
        match spec_parse_nz_number(s) {
            Outcome::Parsed(r, n) => prepend(seq![n], section_part_items(r)),
            o => fail_as(o),
        }
    }

    pub proof fn lemma_parse_len(s: Seq<char>)
        ensures
            no_longer(Self::spec_parse(s), s),
    {
        lemma_parse_nz_number_len(s);
        if let Outcome::Parsed(r, _) = spec_parse_nz_number(s) {
            lemma_section_part_items_len(r);
        }
    }

    pub fn can_parse(s: &Vec<char>, pos: usize) -> (b: bool)
        requires
            pos <= s.len(),
        ensures
            b == Self::spec_can_parse(s@.skip(pos as int)),
    {
        digit_at(s, pos)
    }

    pub fn parse_new(s: &Vec<char>, pos: usize) -> (r: Result<(usize, SectionPart), ParseFailure>)
        requires
            pos <= s.len(),
        ensures
            agrees(r, Self::spec_parse(s@.skip(pos as int)), s@),
    {
        proof {
            reveal_strlit(".");
        }
        let (p0, n0) = parse_number(s, pos)?;
        proof {
            lemma_parse_nz_number_len(s@.skip(pos as int));
        }
        let mut p = p0;
        let mut numbers: Vec<u32> = Vec::new();
        numbers.push(n0);
        assert(numbers@ =~= seq![n0]);
        while dot_digit_at(s, p)
            invariant
                p <= s.len(),
                Self::spec_parse(s@.skip(pos as int)) == prepend(
                    numbers@,
                    section_part_items(s@.skip(p as int)),
                ),
            decreases s.len() - p,
        {
            let ghost w = s@.skip(p as int);
            proof {
                reveal_strlit(".");
            }
            assert(s@.skip(p + 1) == w.skip(1));
            let (p2, n) = parse_number(s, p + 1)?;
            proof {
                lemma_parse_nz_number_len(w.skip(1));
                assert(numbers@.push(n) =~= numbers@ + seq![n]);
                lemma_prepend_prepend(numbers@, seq![n], section_part_items(s@.skip(p2 as int)));
            }
            numbers.push(n);
            p = p2;
        }
        assert(numbers@ + seq![] =~= numbers@);
        Ok((p, SectionPart { numbers }))
    }
}

/// The ` `-separated `header-fld-name`s after the first, up to `)`.
pub open spec fn header_names(s: Seq<char>) -> Outcome<Seq<SpecAString>>
    decreases s.len(),
{
    if starts_with(s, ")"@) {
        Outcome::Parsed(s, seq![])
    } else {
        match spec_remove_start(" "@, s) {
            Outcome::Parsed(r, _) => match AString::spec_parse(r) {
                Outcome::Parsed(r2, a) => {
                    proof {
                        reveal_strlit(" ");
                        AString::lemma_parse_len(r);
                    }
                    prepend(seq![a], header_names(r2))
                },
                o => fail_as(o),
            },
            o => fail_as(o),
        }
    }
}

proof fn lemma_header_names_len(s: Seq<char>)
    ensures
        no_longer(header_names(s), s),
    decreases s.len(),
{
    reveal_strlit(" ");
    if !starts_with(s, ")"@) && starts_with(s, " "@) {
        AString::lemma_parse_len(s.skip(1));
        if let Outcome::Parsed(r2, _) = AString::spec_parse(s.skip(1)) {
            lemma_header_names_len(r2);
        }
    }
}

impl HeaderList {
    pub open spec fn spec_can_parse(s: Seq<char>) -> bool {
        starts_with(s, "("@)
    }

    /// `(` then `astring`s separated by ` `, then `)`.
    pub open spec fn spec_parse(s: Seq<char>) -> Outcome<Seq<SpecAString>> {
        match spec_remove_start("("@, s) {
            Outcome::Parsed(r, _) => match AString::spec_parse(r) {
                Outcome::Parsed(r1, a) => Self::close(prepend(seq![a], header_names(r1))),
                o => fail_as(o),
            },
            o => fail_as(o),
        }
    }

    /// The list of names, once the closing `)` is removed.
    pub open spec fn close(o: Outcome<Seq<SpecAString>>) -> Outcome<Seq<SpecAString>> {
        match o {
            Outcome::Parsed(r2, names) => match spec_remove_start(")"@, r2) {
                Outcome::Parsed(r3, _) => Outcome::Parsed(r3, names),
                o2 => fail_as(o2),
            },
            o => o,
        }
    }

    pub proof fn lemma_parse_len(s: Seq<char>)
        ensures
            shorter(Self::spec_parse(s), s),
    {
        reveal_strlit("(");
        reveal_strlit(")");
        if starts_with(s, "("@) {
            AString::lemma_parse_len(s.skip(1));
            if let Outcome::Parsed(r1, _) = AString::spec_parse(s.skip(1)) {
                lemma_header_names_len(r1);
            }
        }
    }

    pub fn can_parse(s: &Vec<char>, pos: usize) -> (b: bool)
        requires
            pos <= s.len(),
        ensures
            b == Self::spec_can_parse(s@.skip(pos as int)),
    {
        starts_with_at(s, pos, s.len(), "(")
    }

    pub fn parse_new(s: &Vec<char>, pos: usize) -> (r: Result<(usize, HeaderList), ParseFailure>)
        requires
            pos <= s.len(),
        ensures
            agrees(r, Self::spec_parse(s@.skip(pos as int)), s@),
    {
        let (p0, _) = expect(s, pos, "(")?;
        let (p1, first) = AString::parse_new(s, p0)?;
        let mut names: Vec<AString> = Vec::new();
        names.push(first);
        let mut p = p1;
        let ghost head = seq![first@];
        assert(names.deep_view() =~= head);
        assert(head + seq![] =~= head);
        while !starts_with_at(s, p, s.len(), ")")
            invariant
                p1 <= p <= s.len(),
                Self::spec_parse(s@.skip(pos as int)) == Self::close(
                    prepend(names.deep_view(), header_names(s@.skip(p as int))),
                ),
            decreases s.len() - p,
        {
            let ghost w = s@.skip(p as int);
            let (p2, _) = expect(s, p, " ")?;
            let (p3, a) = AString::parse_new(s, p2)?;
            proof {
                reveal_strlit(" ");
                AString::lemma_parse_len(w.skip(1));
                assert(names.deep_view().push(a@) =~= names.deep_view() + seq![a@]);
                lemma_prepend_prepend(names.deep_view(), seq![a@], header_names(s@.skip(p3 as int)));
            }
            let ghost before = names.deep_view();
            names.push(a);
            assert(names.deep_view() =~= before.push(a@));
            p = p3;
        }
        let (p4, _) = expect(s, p, ")")?;
        assert(names.deep_view() + seq![] =~= names.deep_view());
        Ok((p4, HeaderList { header_fld_names: names }))
    }
}

impl SectionMsgtext {
    pub open spec fn spec_can_parse(s: Seq<char>) -> bool {
        starts_with(s, "HEADER"@) || starts_with(s, "TEXT"@)
    }

    /// `HEADER.FIELDS` [`.NOT`] ` ` `header-list`, `HEADER` or `TEXT`.
    pub open spec fn spec_parse(s: Seq<char>) -> Outcome<SpecSectionMsgtext> {
        if starts_with(s, "HEADER.FIELDS"@) {
            let r = s.skip(13);
            let not = starts_with(r, ".NOT"@);
            let r1 = if not {
                r.skip(4)
            } else {
                r
            };
            match spec_remove_start(" "@, r1) {
                Outcome::Parsed(r2, _) => match HeaderList::spec_parse(r2) {
                    Outcome::Parsed(r3, list) => Outcome::Parsed(
                        r3,
                        SpecSectionMsgtext::HeaderFields(not, list),
                    ),
                    o => fail_as(o),
                },
                o => fail_as(o),
            }
        } else if starts_with(s, "HEADER"@) {
            Outcome::Parsed(s.skip(6), SpecSectionMsgtext::Header)
        } else if starts_with(s, "TEXT"@) {
            Outcome::Parsed(s.skip(4), SpecSectionMsgtext::Text)
        } else {
            Outcome::Rejected("SectionMsgtext parsing failure"@)
        }
    }

    pub proof fn lemma_parse_len(s: Seq<char>)
        ensures
            shorter(Self::spec_parse(s), s),
    {
        reveal_strlit("HEADER.FIELDS");
        reveal_strlit(".NOT");
        reveal_strlit("HEADER");
        reveal_strlit("TEXT");
        reveal_strlit(" ");
        if starts_with(s, "HEADER.FIELDS"@) {
            let r = s.skip(13);
            let r1 = if starts_with(r, ".NOT"@) {
                r.skip(4)
            } else {
                r
            };
            if starts_with(r1, " "@) {
                HeaderList::lemma_parse_len(r1.skip(1));
            }
        }
    }

    pub fn can_parse(s: &Vec<char>, pos: usize) -> (b: bool)
        requires
            pos <= s.len(),
        ensures
            b == Self::spec_can_parse(s@.skip(pos as int)),
    {
        starts_with_at(s, pos, s.len(), "HEADER") || starts_with_at(s, pos, s.len(), "TEXT")
    }

    pub fn parse_new(s: &Vec<char>, pos: usize) -> (r: Result<(usize, SectionMsgtext), ParseFailure>)
        requires
            pos <= s.len(),
        ensures
            agrees(r, Self::spec_parse(s@.skip(pos as int)), s@),
    {
        let ghost w = s@.skip(pos as int);
        proof {
            reveal_strlit("HEADER.FIELDS");
            reveal_strlit(".NOT");
            reveal_strlit("HEADER");
            reveal_strlit("TEXT");
        }
        if starts_with_at(s, pos, s.len(), "HEADER.FIELDS") {
            let mut p = pos + 13;
            assert(s@.skip(p as int) == w.skip(13));
            let mut not = false;
            if starts_with_at(s, p, s.len(), ".NOT") {
                assert(s@.skip(p + 4) == w.skip(13).skip(4));
                p = p + 4;
                not = true;
            }
            let (p1, _) = expect(s, p, " ")?;
            let (p2, list) = HeaderList::parse_new(s, p1)?;
            Ok((p2, SectionMsgtext::HeaderFields((not, list))))
        } else if starts_with_at(s, pos, s.len(), "HEADER") {
            assert(s@.skip(pos + 6) == w.skip(6));
            Ok((pos + 6, SectionMsgtext::Header))
        } else if starts_with_at(s, pos, s.len(), "TEXT") {
            assert(s@.skip(pos + 4) == w.skip(4));
            Ok((pos + 4, SectionMsgtext::Text))
        } else {
            reject("SectionMsgtext parsing failure")
        }
    }
}

impl SectionText {
    pub open spec fn spec_can_parse(s: Seq<char>) -> bool {
        starts_with(s, "MIME"@) || SectionMsgtext::spec_can_parse(s)
    }

    /// `MIME` or a `section-msgtext`.
    pub open spec fn spec_parse(s: Seq<char>) -> Outcome<SpecSectionText> {
        if starts_with(s, "MIME"@) {
            Outcome::Parsed(s.skip(4), SpecSectionText::MIME)
        } else if SectionMsgtext::spec_can_parse(s) {
            match SectionMsgtext::spec_parse(s) {
                Outcome::Parsed(r, m) => Outcome::Parsed(r, SpecSectionText::SectionMsgtext(m)),
                o => fail_as(o),
            }
        } else {
            Outcome::Rejected("SectionText parsing failure"@)
        }
    }

    pub proof fn lemma_parse_len(s: Seq<char>)
        ensures
            no_longer(Self::spec_parse(s), s),
    {
        reveal_strlit("MIME");
        SectionMsgtext::lemma_parse_len(s);
    }

    pub fn can_parse(s: &Vec<char>, pos: usize) -> (b: bool)
        requires
            pos <= s.len(),
        ensures
            b == Self::spec_can_parse(s@.skip(pos as int)),
    {
        starts_with_at(s, pos, s.len(), "MIME") || SectionMsgtext::can_parse(s, pos)
    }

    pub fn parse_new(s: &Vec<char>, pos: usize) -> (r: Result<(usize, SectionText), ParseFailure>)
        requires
            pos <= s.len(),
        ensures
            agrees(r, Self::spec_parse(s@.skip(pos as int)), s@),
    {
        proof {
            reveal_strlit("MIME");
        }
        if starts_with_at(s, pos, s.len(), "MIME") {
            assert(s@.skip(pos + 4) == s@.skip(pos as int).skip(4));
            Ok((pos + 4, SectionText::MIME))
        } else if SectionMsgtext::can_parse(s, pos) {
            let (p, m) = SectionMsgtext::parse_new(s, pos)?;
            Ok((p, SectionText::SectionMsgtext(m)))
        } else {
            reject("SectionText parsing failure")
        }
    }
}

impl SectionSpecComponent {
    pub open spec fn spec_can_parse(s: Seq<char>) -> bool {
        SectionPart::spec_can_parse(s)
    }

    /// A `section-part`, optionally followed by `.` and a `section-text`.
    pub open spec fn spec_parse(s: Seq<char>) -> Outcome<SpecSectionSpecComponent> {
        match SectionPart::spec_parse(s) {
            Outcome::Parsed(r, part) => if starts_with(r, "."@) {
                match SectionText::spec_parse(r.skip(1)) {
                    Outcome::Parsed(r2, t) => Outcome::Parsed(
                        r2,
                        SpecSectionSpecComponent { section_part: part, section_text: Some(t) },
                    ),
                    o => fail_as(o),
                }
            } else {
                Outcome::Parsed(
                    r,
                    SpecSectionSpecComponent { section_part: part, section_text: None },
                )
            },
            o => fail_as(o),
        }
    }

    pub proof fn lemma_parse_len(s: Seq<char>)
        ensures
            no_longer(Self::spec_parse(s), s),
    {
        reveal_strlit(".");
        SectionPart::lemma_parse_len(s);
        if let Outcome::Parsed(r, _) = SectionPart::spec_parse(s) {
            if starts_with(r, "."@) {
                SectionText::lemma_parse_len(r.skip(1));
            }
        }
    }

    pub fn can_parse(s: &Vec<char>, pos: usize) -> (b: bool)
        requires
            pos <= s.len(),
        ensures
            b == Self::spec_can_parse(s@.skip(pos as int)),
    {
        SectionPart::can_parse(s, pos)
    }

    pub fn parse_new(s: &Vec<char>, pos: usize) -> (r: Result<(usize, SectionSpecComponent), ParseFailure>)
        requires
            pos <= s.len(),
        ensures
            agrees(r, Self::spec_parse(s@.skip(pos as int)), s@),
    {
        proof {
            reveal_strlit(".");
        }
        let (p, section_part) = SectionPart::parse_new(s, pos)?;
        if starts_with_at(s, p, s.len(), ".") {
            assert(s@.skip(p + 1) == s@.skip(p as int).skip(1));
            let (p2, t) = SectionText::parse_new(s, p + 1)?;
            Ok((p2, SectionSpecComponent { section_part, section_text: Some(t) }))
        } else {
            Ok((p, SectionSpecComponent { section_part, section_text: None }))
        }
    }
}

impl SectionSpec {
    pub open spec fn spec_can_parse(s: Seq<char>) -> bool {
        !starts_with(s, "]"@)
    }

    /// A `section-msgtext`, or a `section-part` with its optional text.
    pub open spec fn spec_parse(s: Seq<char>) -> Outcome<SpecSectionSpec> {
        if SectionMsgtext::spec_can_parse(s) {
            match SectionMsgtext::spec_parse(s) {
                Outcome::Parsed(r, m) => Outcome::Parsed(r, SpecSectionSpec::SectionMsgtext(m)),
                o => fail_as(o),
            }
        } else if SectionSpecComponent::spec_can_parse(s) {
            match SectionSpecComponent::spec_parse(s) {
                Outcome::Parsed(r, c) => Outcome::Parsed(r, SpecSectionSpec::SectionSpecComponent(c)),
                o => fail_as(o),
            }
        } else {
            Outcome::Rejected("SectionSpec didnt match"@)
        }
    }

    pub proof fn lemma_parse_len(s: Seq<char>)
        ensures
            no_longer(Self::spec_parse(s), s),
    {
        SectionMsgtext::lemma_parse_len(s);
        SectionSpecComponent::lemma_parse_len(s);
    }

    pub fn can_parse(s: &Vec<char>, pos: usize) -> (b: bool)
        requires
            pos <= s.len(),
        ensures
            b == Self::spec_can_parse(s@.skip(pos as int)),
    {
        !starts_with_at(s, pos, s.len(), "]")
    }

    pub fn parse_new(s: &Vec<char>, pos: usize) -> (r: Result<(usize, SectionSpec), ParseFailure>)
        requires
            pos <= s.len(),
        ensures
            agrees(r, Self::spec_parse(s@.skip(pos as int)), s@),
    {
        if SectionMsgtext::can_parse(s, pos) {
            let (p, m) = SectionMsgtext::parse_new(s, pos)?;
            Ok((p, SectionSpec::SectionMsgtext(m)))
        } else if SectionSpecComponent::can_parse(s, pos) {
            let (p, c) = SectionSpecComponent::parse_new(s, pos)?;
            Ok((p, SectionSpec::SectionSpecComponent(c)))
        } else {
            reject("SectionSpec didnt match")
        }
    }
}

/// `section` may start here.
pub open spec fn spec_can_parse_section(s: Seq<char>) -> bool {
    starts_with(s, "["@)
}

/// `[` [`section-spec`] `]`; `None` for an empty section.
pub open spec fn spec_parse_section(s: Seq<char>) -> Outcome<Option<SpecSectionSpec>> {
    match spec_remove_start("["@, s) {
        Outcome::Parsed(r, _) => if SectionSpec::spec_can_parse(r) {
            match SectionSpec::spec_parse(r) {
                Outcome::Parsed(r2, sp) => match spec_remove_start("]"@, r2) {
                    Outcome::Parsed(r3, _) => Outcome::Parsed(r3, Some(sp)),
                    o => fail_as(o),
                },
                o => fail_as(o),
            }
        } else {
            match spec_remove_start("]"@, r) {
                Outcome::Parsed(r3, _) => Outcome::Parsed(r3, None),
                o => fail_as(o),
            }
        },
        o => fail_as(o),
    }
}

pub proof fn lemma_parse_section_len(s: Seq<char>)
    ensures
        shorter(spec_parse_section(s), s),
{
    reveal_strlit("[");
    reveal_strlit("]");
    if starts_with(s, "["@) {
        SectionSpec::lemma_parse_len(s.skip(1));
    }
}

pub fn can_parse_section(s: &Vec<char>, pos: usize) -> (b: bool)
    requires
        pos <= s.len(),
    ensures
        b == spec_can_parse_section(s@.skip(pos as int)),
{
    starts_with_at(s, pos, s.len(), "[")
}

pub fn parse_section(s: &Vec<char>, pos: usize) -> (r: Result<(usize, Option<SectionSpec>), ParseFailure>)
    requires
        pos <= s.len(),
    ensures
        agrees(r, spec_parse_section(s@.skip(pos as int)), s@),
{
    let (p, _) = expect(s, pos, "[")?;
    if SectionSpec::can_parse(s, p) {
        let (p2, sp) = SectionSpec::parse_new(s, p)?;
        let (p3, _) = expect(s, p2, "]")?;
        Ok((p3, Some(sp)))
    } else {
        let (p3, _) = expect(s, p, "]")?;
        Ok((p3, None))
    }
}

// ---------------------------------------------------------------------------
// address, env-*, envelope
// ---------------------------------------------------------------------------

/// The separator `sep`, then an `nstring`.
pub open spec fn sep_nstring(sep: Seq<char>, s: Seq<char>) -> Outcome<Option<Seq<char>>> {
    match spec_remove_start(sep, s) {
        Outcome::Parsed(r, _) => spec_parse_nstring(r),
        o => fail_as(o),
    }
}

pub proof fn lemma_sep_nstring_len(sep: Seq<char>, s: Seq<char>)
    ensures
        shorter(sep_nstring(sep, s), s),
{
    if starts_with(s, sep) {
        lemma_parse_nstring_len(s.skip(sep.len() as int));
    }
}

fn parse_sep_nstring(s: &Vec<char>, pos: usize, sep: &str) -> (r: Result<(usize, Option<String>), ParseFailure>)
    requires
        pos <= s.len(),
    ensures
        agrees(r, sep_nstring(sep@, s@.skip(pos as int)), s@),
{
    let (p, _) = expect(s, pos, sep)?;
    parse_nstring(s, p)
}

impl Address {
    pub open spec fn spec_can_parse(s: Seq<char>) -> bool {
        starts_with(s, "("@)
    }

    /// `(` and four `nstring`s separated by ` `, then `)`.
    pub open spec fn spec_parse(s: Seq<char>) -> Outcome<SpecAddress> {
        if starts_with(s, "("@) {
            match spec_parse_nstring(s.skip(1)) {
                Outcome::Parsed(r1, addr_name) => match sep_nstring(" "@, r1) {
                    Outcome::Parsed(r2, addr_adl) => match sep_nstring(" "@, r2) {
                        Outcome::Parsed(r3, addr_mailbox) => match sep_nstring(" "@, r3) {
                            Outcome::Parsed(r4, addr_host) => match spec_remove_start(")"@, r4) {
                                Outcome::Parsed(r5, _) => Outcome::Parsed(
                                    r5,
                                    SpecAddress { addr_name, addr_adl, addr_mailbox, addr_host },
                                ),
                                o => fail_as(o),
                            },
                            o => fail_as(o),
                        },
                        o => fail_as(o),
                    },
                    o => fail_as(o),
                },
                o => fail_as(o),
            }
        } else {
            Outcome::Rejected("Address parsing failure"@)
        }
    }

    pub proof fn lemma_parse_len(s: Seq<char>)
        ensures
            shorter(Self::spec_parse(s), s),
    {
        reveal_strlit("(");
        if starts_with(s, "("@) {
            lemma_parse_nstring_len(s.skip(1));
            if let Outcome::Parsed(r1, _) = spec_parse_nstring(s.skip(1)) {
                lemma_sep_nstring_len(" "@, r1);
                if let Outcome::Parsed(r2, _) = sep_nstring(" "@, r1) {
                    lemma_sep_nstring_len(" "@, r2);
                    if let Outcome::Parsed(r3, _) = sep_nstring(" "@, r2) {
                        lemma_sep_nstring_len(" "@, r3);
                    }
                }
            }
        }
    }

    pub fn can_parse(s: &Vec<char>, pos: usize) -> (b: bool)
        requires
            pos <= s.len(),
        ensures
            b == Self::spec_can_parse(s@.skip(pos as int)),
    {
        starts_with_at(s, pos, s.len(), "(")
    }

    pub fn parse_new(s: &Vec<char>, pos: usize) -> (r: Result<(usize, Address), ParseFailure>)
        requires
            pos <= s.len(),
        ensures
            agrees(r, Self::spec_parse(s@.skip(pos as int)), s@),
    {
        proof {
            reveal_strlit("(");
        }
        if starts_with_at(s, pos, s.len(), "(") {
            assert(s@.skip(pos + 1) == s@.skip(pos as int).skip(1));
            let (p1, addr_name) = parse_nstring(s, pos + 1)?;
            let (p2, addr_adl) = parse_sep_nstring(s, p1, " ")?;
            let (p3, addr_mailbox) = parse_sep_nstring(s, p2, " ")?;
            let (p4, addr_host) = parse_sep_nstring(s, p3, " ")?;
            let (p5, _) = expect(s, p4, ")")?;
            Ok((p5, Address { addr_name, addr_adl, addr_mailbox, addr_host }))
        } else {
            reject("Address parsing failure")
        }
    }
}

/// The addresses of a parenthesised list up to `)`, with `NIL` entries
/// skipped. After an address the list goes on past a ` `, or at a `(` that
/// starts the next address; anything else ends it (and the closing `)` is
/// then looked for).
pub open spec fn addr_items(s: Seq<char>) -> Outcome<Seq<SpecAddress>>
    decreases s.len(),
{
    if starts_with(s, ")"@) {
        Outcome::Parsed(s, seq![])
    } else if starts_with(s, "NIL"@) {
        proof {
            reveal_strlit("NIL");
        }
        addr_items(s.skip(3))
    } else {
        match Address::spec_parse(s) {
            Outcome::Parsed(r, a) => {
                proof {
                    Address::lemma_parse_len(s);
                    reveal_strlit(" ");
                }
                prepend(
                    seq![a],
                    if starts_with(r, " "@) {
                        addr_items(r.skip(1))
                    } else if starts_with(r, "("@) {
                        addr_items(r)
                    } else {
                        Outcome::Parsed(r, seq![])
                    },
                )
            },
            o => fail_as(o),
        }
    }
}

proof fn lemma_addr_items_len(s: Seq<char>)
    ensures
        no_longer(addr_items(s), s),
    decreases s.len(),
{
    reveal_strlit("NIL");
    reveal_strlit(" ");
    if starts_with(s, ")"@) {
    } else if starts_with(s, "NIL"@) {
        lemma_addr_items_len(s.skip(3));
    } else {
        Address::lemma_parse_len(s);
        if let Outcome::Parsed(r, _) = Address::spec_parse(s) {
            if starts_with(r, " "@) {
                lemma_addr_items_len(r.skip(1));
            } else if starts_with(r, "("@) {
                lemma_addr_items_len(r);
            }
        }
    }
}

impl EnvNAddress {
    pub open spec fn spec_can_parse(s: Seq<char>) -> bool {
        starts_with(s, "("@) || starts_with(s, "NIL"@)
    }

    /// `NIL` (no addresses), or `(` addresses `)`.
    pub open spec fn spec_parse(s: Seq<char>) -> Outcome<Seq<SpecAddress>> {
        if starts_with(s, "NIL"@) {
            Outcome::Parsed(s.skip(3), seq![])
        } else if starts_with(s, "("@) {
            Self::close(addr_items(s.skip(1)))
        } else {
            Outcome::Rejected("Envelope parsing failure"@)
        }
    }

    /// The list of addresses, once the closing `)` is removed.
    pub open spec fn close(o: Outcome<Seq<SpecAddress>>) -> Outcome<Seq<SpecAddress>> {
        match o {
            Outcome::Parsed(r, addrs) => if starts_with(r, ")"@) {
                Outcome::Parsed(r.skip(1), addrs)
            } else {
                Outcome::Rejected("Invalid format: ')' not found"@)
            },
            o => o,
        }
    }

    pub proof fn lemma_parse_len(s: Seq<char>)
        ensures
            shorter(Self::spec_parse(s), s),
    {
        reveal_strlit("NIL");
        reveal_strlit("(");
        reveal_strlit(")");
        if s.len() > 0 {
            lemma_addr_items_len(s.skip(1));
        }
    }

    pub fn can_parse(s: &Vec<char>, pos: usize) -> (b: bool)
        requires
            pos <= s.len(),
        ensures
            b == Self::spec_can_parse(s@.skip(pos as int)),
    {
        starts_with_at(s, pos, s.len(), "(") || starts_with_at(s, pos, s.len(), "NIL")
    }

    pub fn parse_new(s: &Vec<char>, pos: usize) -> (r: Result<(usize, EnvNAddress), ParseFailure>)
        requires
            pos <= s.len(),
        ensures
            agrees(r, Self::spec_parse(s@.skip(pos as int)), s@),
    {
        proof {
            reveal_strlit("NIL");
            reveal_strlit("(");
            reveal_strlit(")");
            reveal_strlit(" ");
        }
        if starts_with_at(s, pos, s.len(), "NIL") {
            assert(s@.skip(pos + 3) == s@.skip(pos as int).skip(3));
            let address: Vec<Address> = Vec::new();
            assert(address.deep_view() =~= Seq::<SpecAddress>::empty());
            return Ok((pos + 3, EnvNAddress { address }));
        }
        if !starts_with_at(s, pos, s.len(), "(") {
            return reject("Envelope parsing failure");
        }
        assert(s@.skip(pos + 1) == s@.skip(pos as int).skip(1));
        let (p, address) = parse_addr_items(s, pos + 1)?;
        if starts_with_at(s, p, s.len(), ")") {
            assert(s@.skip(p + 1) == s@.skip(p as int).skip(1));
            Ok((p + 1, EnvNAddress { address }))
        } else {
            reject("Invalid format: ')' not found")
        }
    }
}

fn parse_addr_items(s: &Vec<char>, pos: usize) -> (r: Result<(usize, Vec<Address>), ParseFailure>)
    requires
        pos <= s.len(),
    ensures
        agrees(r, addr_items(s@.skip(pos as int)), s@),
    decreases s.len() - pos,
{
    let ghost w = s@.skip(pos as int);
    proof {
        reveal_strlit("NIL");
        reveal_strlit(" ");
        reveal_strlit(")");
    }
    if starts_with_at(s, pos, s.len(), ")") {
        let v: Vec<Address> = Vec::new();
        assert(v.deep_view() =~= Seq::<SpecAddress>::empty());
        Ok((pos, v))
    } else if starts_with_at(s, pos, s.len(), "NIL") {
        assert(s@.skip(pos + 3) == w.skip(3));
        parse_addr_items(s, pos + 3)
    } else {
        let (p, a) = Address::parse_new(s, pos)?;
        proof {
            Address::lemma_parse_len(w);
        }
        let ghost head = a@;
        if starts_with_at(s, p, s.len(), " ") || starts_with_at(s, p, s.len(), "(") {
            let p1 = if starts_with_at(s, p, s.len(), " ") {
                assert(s@.skip(p + 1) == s@.skip(p as int).skip(1));
                p + 1
            } else {
                p
            };
            let (p2, mut rest) = parse_addr_items(s, p1)?;
            let ghost tail = rest.deep_view();
            rest.insert(0, a);
            assert(rest.deep_view() =~= seq![head] + tail);
            Ok((p2, rest))
        } else {
            let mut v: Vec<Address> = Vec::new();
            v.push(a);
            assert(v.deep_view() =~= seq![head]);
            Ok((p, v))
        }
    }
}

/// The separator ` `, then an `env-*` address list.
pub open spec fn sep_env(s: Seq<char>) -> Outcome<Seq<SpecAddress>> {
    match spec_remove_start(" "@, s) {
        Outcome::Parsed(r, _) => EnvNAddress::spec_parse(r),
        o => fail_as(o),
    }
}

pub proof fn lemma_sep_env_len(s: Seq<char>)
    ensures
        shorter(sep_env(s), s),
{
    reveal_strlit(" ");
    if starts_with(s, " "@) {
        EnvNAddress::lemma_parse_len(s.skip(1));
    }
}

fn parse_sep_env(s: &Vec<char>, pos: usize) -> (r: Result<(usize, EnvNAddress), ParseFailure>)
    requires
        pos <= s.len(),
    ensures
        agrees(r, sep_env(s@.skip(pos as int)), s@),
{
    let (p, _) = expect(s, pos, " ")?;
    EnvNAddress::parse_new(s, p)
}

impl Envelope {
    pub open spec fn spec_can_parse(s: Seq<char>) -> bool {
        starts_with(s, "("@) && contains(s, "\r\n"@)
    }

    /// `(` date, subject, from, sender, reply-to, to, cc, bcc, in-reply-to
    /// and message-id separated by ` `, then `)`.
    pub open spec fn spec_parse(s: Seq<char>) -> Outcome<SpecEnvelope> {
        match spec_remove_start("("@, s) {
            Outcome::Parsed(r0, _) => match spec_parse_nstring(r0) {
                Outcome::Parsed(r1, env_date) => match sep_nstring(" "@, r1) {
                    Outcome::Parsed(r2, env_subject) => match sep_env(r2) {
                        Outcome::Parsed(r3, env_from) => match sep_env(r3) {
                            Outcome::Parsed(r4, env_sender) => match sep_env(r4) {
                                Outcome::Parsed(r5, env_reply_to) => match sep_env(r5) {
                                    Outcome::Parsed(r6, env_to) => match sep_env(r6) {
                                        Outcome::Parsed(r7, env_cc) => match sep_env(r7) {
                                            Outcome::Parsed(r8, env_bcc) => match sep_nstring(
                                                " "@,
                                                r8,
                                            ) {
                                                Outcome::Parsed(r9, env_in_reply_to) => match sep_nstring(
                                                    " "@,
                                                    r9,
                                                ) {
                                                    Outcome::Parsed(
                                                        r10,
                                                        env_message_id,
                                                    ) => match spec_remove_start(")"@, r10) {
                                                        Outcome::Parsed(r11, _) => Outcome::Parsed(
                                                            r11,
                                                            SpecEnvelope {
                                                                env_date,
                                                                env_subject,
                                                                env_from,
                                                                env_sender,
                                                                env_reply_to,
                                                                env_to,
                                                                env_cc,
                                                                env_bcc,
                                                                env_in_reply_to,
                                                                env_message_id,
                                                            },
                                                        ),
                                                        o => fail_as(o),
                                                    },
                                                    o => fail_as(o),
                                                },
                                                o => fail_as(o),
                                            },
                                            o => fail_as(o),
                                        },
                                        o => fail_as(o),
                                    },
                                    o => fail_as(o),
                                },
                                o => fail_as(o),
                            },
                            o => fail_as(o),
                        },
                        o => fail_as(o),
                    },
                    o => fail_as(o),
                },
                o => fail_as(o),
            },
            o => fail_as(o),
        }
    }

    pub proof fn lemma_parse_len(s: Seq<char>)
        ensures
            shorter(Self::spec_parse(s), s),
    {
        reveal_strlit("(");
        if let Outcome::Parsed(r0, _) = spec_remove_start("("@, s) {
            lemma_parse_nstring_len(r0);
            if let Outcome::Parsed(r1, _) = spec_parse_nstring(r0) {
                lemma_sep_nstring_len(" "@, r1);
                if let Outcome::Parsed(r2, _) = sep_nstring(" "@, r1) {
                    lemma_sep_env_len(r2);
                    if let Outcome::Parsed(r3, _) = sep_env(r2) {
                        lemma_sep_env_len(r3);
                        if let Outcome::Parsed(r4, _) = sep_env(r3) {
                            lemma_sep_env_len(r4);
                            if let Outcome::Parsed(r5, _) = sep_env(r4) {
                                lemma_sep_env_len(r5);
                                if let Outcome::Parsed(r6, _) = sep_env(r5) {
                                    lemma_sep_env_len(r6);
                                    if let Outcome::Parsed(r7, _) = sep_env(r6) {
                                        lemma_sep_env_len(r7);
                                        if let Outcome::Parsed(r8, _) = sep_env(r7) {
                                            lemma_sep_nstring_len(" "@, r8);
                                            if let Outcome::Parsed(r9, _) = sep_nstring(" "@, r8) {
                                                lemma_sep_nstring_len(" "@, r9);
                                            }
                                        }
                                    }
                                }
                            }
                        }
                    }
                }
            }
        }
    }

    pub fn can_parse(s: &Vec<char>, pos: usize) -> (b: bool)
        requires
            pos <= s.len(),
        ensures
            b == Self::spec_can_parse(s@.skip(pos as int)),
    {
        starts_with_at(s, pos, s.len(), "(") && find_at(s, pos, s.len(), "\r\n").is_some()
    }

    pub fn parse_new(s: &Vec<char>, pos: usize) -> (r: Result<(usize, Envelope), ParseFailure>)
        requires
            pos <= s.len(),
        ensures
            agrees(r, Self::spec_parse(s@.skip(pos as int)), s@),
    {
        let (p0, _) = expect(s, pos, "(")?;
        let (p1, env_date) = parse_nstring(s, p0)?;
        let (p2, env_subject) = parse_sep_nstring(s, p1, " ")?;
        let (p3, env_from) = parse_sep_env(s, p2)?;
        let (p4, env_sender) = parse_sep_env(s, p3)?;
        let (p5, env_reply_to) = parse_sep_env(s, p4)?;
        let (p6, env_to) = parse_sep_env(s, p5)?;
        let (p7, env_cc) = parse_sep_env(s, p6)?;
        let (p8, env_bcc) = parse_sep_env(s, p7)?;
        let (p9, env_in_reply_to) = parse_sep_nstring(s, p8, " ")?;
        let (p10, env_message_id) = parse_sep_nstring(s, p9, " ")?;
        let (p11, _) = expect(s, p10, ")")?;
        Ok(
            (
                p11,
                Envelope {
                    env_date,
                    env_subject,
                    env_from,
                    env_sender,
                    env_reply_to,
                    env_to,
                    env_cc,
                    env_bcc,
                    env_in_reply_to,
                    env_message_id,
                },
            ),
        )
    }
}

// ---------------------------------------------------------------------------
// msg-att, msg-att-static, message-data
// ---------------------------------------------------------------------------

impl MsgAttStaticBodyStructuredComponent {
    /// `BODY ` or `BODYSTRUCTURE `.
    pub open spec fn spec_can_parse(s: Seq<char>) -> bool {
        starts_with(s, "BODY "@) || starts_with(s, "BODYSTRUCTURE "@)
    }

    pub fn can_parse(s: &Vec<char>, pos: usize) -> (b: bool)
        requires
            pos <= s.len(),
        ensures
            b == Self::spec_can_parse(s@.skip(pos as int)),
    {
        starts_with_at(s, pos, s.len(), "BODY ") || starts_with_at(s, pos, s.len(), "BODYSTRUCTURE ")
    }
}

/// An optional `<` number `>` partial-fetch offset.
pub open spec fn optional_offset(s: Seq<char>) -> Outcome<Option<u32>> {
    if starts_with(s, "<"@) {
        match spec_parse_nz_number(s.skip(1)) {
            Outcome::Parsed(r, n) => match spec_remove_start(">"@, r) {
                Outcome::Parsed(r2, _) => Outcome::Parsed(r2, Some(n)),
                o => fail_as(o),
            },
            o => fail_as(o),
        }
    } else {
        Outcome::Parsed(s, None)
    }
}

proof fn lemma_optional_offset_len(s: Seq<char>)
    ensures
        no_longer(optional_offset(s), s),
{
    reveal_strlit("<");
    if starts_with(s, "<"@) {
        lemma_parse_nz_number_len(s.skip(1));
    }
}

fn parse_optional_offset(s: &Vec<char>, pos: usize) -> (r: Result<(usize, Option<u32>), ParseFailure>)
    requires
        pos <= s.len(),
    ensures
        agrees(r, optional_offset(s@.skip(pos as int)), s@),
{
    proof {
        reveal_strlit("<");
    }
    if starts_with_at(s, pos, s.len(), "<") {
        assert(s@.skip(pos + 1) == s@.skip(pos as int).skip(1));
        let (p, n) = parse_number(s, pos + 1)?;
        let (p2, _) = expect(s, p, ">")?;
        Ok((p2, Some(n)))
    } else {
        Ok((pos, None))
    }
}

impl MsgAttStaticBodyNonStructuredComponent {
    pub open spec fn spec_can_parse(s: Seq<char>) -> bool {
        starts_with(s, "BODY"@)
    }

    /// `BODY` `section` [`<` number `>`] ` ` `nstring`.
    pub open spec fn spec_parse(s: Seq<char>) -> Outcome<SpecBodyNonStructured> {
        match spec_remove_start("BODY"@, s) {
            Outcome::Parsed(r, _) => match spec_parse_section(r) {
                Outcome::Parsed(r1, section) => match optional_offset(r1) {
                    Outcome::Parsed(r2, number) => match sep_nstring(" "@, r2) {
                        Outcome::Parsed(r3, nstring) => Outcome::Parsed(
                            r3,
                            SpecBodyNonStructured { section, number, nstring },
                        ),
                        o => fail_as(o),
                    },
                    o => fail_as(o),
                },
                o => fail_as(o),
            },
            o => fail_as(o),
        }
    }

    pub proof fn lemma_parse_len(s: Seq<char>)
        ensures
            shorter(Self::spec_parse(s), s),
    {
        reveal_strlit("BODY");
        if starts_with(s, "BODY"@) {
            let r = s.skip(4);
            lemma_parse_section_len(r);
            if let Outcome::Parsed(r1, _) = spec_parse_section(r) {
                lemma_optional_offset_len(r1);
                if let Outcome::Parsed(r2, _) = optional_offset(r1) {
                    lemma_sep_nstring_len(" "@, r2);
                }
            }
        }
    }

    pub fn can_parse(s: &Vec<char>, pos: usize) -> (b: bool)
        requires
            pos <= s.len(),
        ensures
            b == Self::spec_can_parse(s@.skip(pos as int)),
    {
        starts_with_at(s, pos, s.len(), "BODY")
    }

    pub fn parse_new(s: &Vec<char>, pos: usize) -> (r: Result<(usize, MsgAttStaticBodyNonStructuredComponent), ParseFailure>)
        requires
            pos <= s.len(),
        ensures
            agrees(r, Self::spec_parse(s@.skip(pos as int)), s@),
    {
        let (p, _) = expect(s, pos, "BODY")?;
        let (p1, section) = parse_section(s, p)?;
        let (p2, number) = parse_optional_offset(s, p1)?;
        let (p3, nstring) = parse_sep_nstring(s, p2, " ")?;
        Ok((p3, MsgAttStaticBodyNonStructuredComponent { section, number, nstring }))
    }
}

impl MsgAttStatic {
    pub open spec fn spec_can_parse(s: Seq<char>) -> bool {
        starts_with(s, "ENVELOPE"@) || starts_with(s, "RFC822"@) || starts_with(s, "BODY"@)
            || starts_with(s, "RFC822.SIZE"@) || starts_with(s, "UID"@)
    }

    /// `ENVELOPE ` `envelope`, `RFC822.SIZE ` `number`, or a
    /// non-structured `BODY`; `RFC822 `, structured bodies and every other
    /// attribute are not handled.
    pub open spec fn spec_parse(s: Seq<char>) -> Outcome<SpecMsgAttStatic> {
        if starts_with(s, "ENVELOPE "@) {
            match Envelope::spec_parse(s.skip(9)) {
                Outcome::Parsed(r, e) => Outcome::Parsed(r, SpecMsgAttStatic::Envelope(e)),
                o => fail_as(o),
            }
        } else if starts_with(s, "RFC822 "@) {
            Outcome::Unhandled
        } else if starts_with(s, "RFC822.SIZE "@) {
            match spec_remove_start("RFC822.SIZE "@, s) {
                Outcome::Parsed(r, _) => match spec_parse_nz_number(r) {
                    Outcome::Parsed(r2, n) => Outcome::Parsed(r2, SpecMsgAttStatic::RFC822Size(n)),
                    o => fail_as(o),
                },
                o => fail_as(o),
            }
        } else if MsgAttStaticBodyStructuredComponent::spec_can_parse(s) {
            Outcome::Unhandled
        } else if MsgAttStaticBodyNonStructuredComponent::spec_can_parse(s) {
            match MsgAttStaticBodyNonStructuredComponent::spec_parse(s) {
                Outcome::Parsed(r, b) => Outcome::Parsed(r, SpecMsgAttStatic::NonStructuredBody(b)),
                o => fail_as(o),
            }
        } else {
            Outcome::Unhandled
        }
    }

    pub proof fn lemma_parse_len(s: Seq<char>)
        ensures
            shorter(Self::spec_parse(s), s),
    {
        reveal_strlit("ENVELOPE ");
        reveal_strlit("RFC822.SIZE ");
        if starts_with(s, "ENVELOPE "@) {
            Envelope::lemma_parse_len(s.skip(9));
        }
        if starts_with(s, "RFC822.SIZE "@) {
            lemma_parse_nz_number_len(s.skip(12));
        }
        MsgAttStaticBodyNonStructuredComponent::lemma_parse_len(s);
    }

    pub fn can_parse(s: &Vec<char>, pos: usize) -> (b: bool)
        requires
            pos <= s.len(),
        ensures
            b == Self::spec_can_parse(s@.skip(pos as int)),
    {
        starts_with_at(s, pos, s.len(), "ENVELOPE") || starts_with_at(s, pos, s.len(), "RFC822")
            || starts_with_at(s, pos, s.len(), "BODY") || starts_with_at(
            s,
            pos,
            s.len(),
            "RFC822.SIZE",
        ) || starts_with_at(s, pos, s.len(), "UID")
    }

    pub fn parse_new(s: &Vec<char>, pos: usize) -> (r: Result<(usize, MsgAttStatic), ParseFailure>)
        requires
            pos <= s.len(),
        ensures
            agrees(r, Self::spec_parse(s@.skip(pos as int)), s@),
    {
        proof {
            reveal_strlit("ENVELOPE ");
        }
        if starts_with_at(s, pos, s.len(), "ENVELOPE ") {
            assert(s@.skip(pos + 9) == s@.skip(pos as int).skip(9));
            let (p, e) = Envelope::parse_new(s, pos + 9)?;
            Ok((p, MsgAttStatic::Envelope(e)))
        } else if starts_with_at(s, pos, s.len(), "RFC822 ") {
            Err(ParseFailure::Unhandled)
        } else if starts_with_at(s, pos, s.len(), "RFC822.SIZE ") {
            let (p, _) = expect(s, pos, "RFC822.SIZE ")?;
            let (p2, n) = parse_number(s, p)?;
            Ok((p2, MsgAttStatic::RFC822Size(n)))
        } else if MsgAttStaticBodyStructuredComponent::can_parse(s, pos) {
            Err(ParseFailure::Unhandled)
        } else if MsgAttStaticBodyNonStructuredComponent::can_parse(s, pos) {
            let (p, b) = MsgAttStaticBodyNonStructuredComponent::parse_new(s, pos)?;
            Ok((p, MsgAttStatic::NonStructuredBody(b)))
        } else {
            Err(ParseFailure::Unhandled)
        }
    }
}

/// The attributes of a `msg-att` up to `)`: none, or attributes separated
/// by ` `.
pub open spec fn msg_att_items(s: Seq<char>) -> Outcome<Seq<SpecMsgAttComponent>> {
    if starts_with(s, ")"@) {
        Outcome::Parsed(s, seq![])
    } else {
        msg_att_list(s)
    }
}

/// An attribute, then more after each ` `; an attribute that is not static
/// is not handled.
pub open spec fn msg_att_list(s: Seq<char>) -> Outcome<Seq<SpecMsgAttComponent>>
    decreases s.len(),
{
    if MsgAttStatic::spec_can_parse(s) {
        match MsgAttStatic::spec_parse(s) {
            Outcome::Parsed(r, a) => {
                proof {
                    MsgAttStatic::lemma_parse_len(s);
                    reveal_strlit(" ");
                }
                prepend(
                    seq![SpecMsgAttComponent::MsgAttStatic(a)],
                    if starts_with(r, " "@) {
                        msg_att_list(r.skip(1))
                    } else {
                        Outcome::Parsed(r, seq![])
                    },
                )
            },
            o => fail_as(o),
        }
    } else {
        Outcome::Unhandled
    }
}

proof fn lemma_msg_att_list_len(s: Seq<char>)
    ensures
        no_longer(msg_att_list(s), s),
    decreases s.len(),
{
    reveal_strlit(" ");
    if MsgAttStatic::spec_can_parse(s) {
        MsgAttStatic::lemma_parse_len(s);
        if let Outcome::Parsed(r, _) = MsgAttStatic::spec_parse(s) {
            if starts_with(r, " "@) {
                lemma_msg_att_list_len(r.skip(1));
            }
        }
    }
}

proof fn lemma_msg_att_items_len(s: Seq<char>)
    ensures
        no_longer(msg_att_items(s), s),
{
    lemma_msg_att_list_len(s);
}

/// `msg-att` may start here.
pub open spec fn spec_can_parse_msg_att(s: Seq<char>) -> bool {
    starts_with(s, "("@) && contains(s, ")"@)
}

/// `(` attributes `)`.
pub open spec fn spec_parse_msg_att(s: Seq<char>) -> Outcome<Seq<SpecMsgAttComponent>> {
    match spec_remove_start("("@, s) {
        Outcome::Parsed(r, _) => close_msg_att(msg_att_items(r)),
        o => fail_as(o),
    }
}

/// The attributes, once the closing `)` is removed.
pub open spec fn close_msg_att(o: Outcome<Seq<SpecMsgAttComponent>>) -> Outcome<Seq<SpecMsgAttComponent>> {
    match o {
        Outcome::Parsed(r, items) => match spec_remove_start(")"@, r) {
            Outcome::Parsed(r2, _) => Outcome::Parsed(r2, items),
            o2 => fail_as(o2),
        },
        o => o,
    }
}

pub proof fn lemma_parse_msg_att_len(s: Seq<char>)
    ensures
        shorter(spec_parse_msg_att(s), s),
{
    reveal_strlit("(");
    reveal_strlit(")");
    if starts_with(s, "("@) {
        lemma_msg_att_items_len(s.skip(1));
    }
}

pub fn can_parse_msg_att(s: &Vec<char>, pos: usize) -> (b: bool)
    requires
        pos <= s.len(),
    ensures
        b == spec_can_parse_msg_att(s@.skip(pos as int)),
{
    starts_with_at(s, pos, s.len(), "(") && find_at(s, pos, s.len(), ")").is_some()
}

/// One attribute of a `msg-att` at `pos`, and whether a ` ` follows it
/// (the position handed back is after that ` `).
#[verifier::spinoff_prover]
#[verifier::rlimit(30)]
fn parse_msg_att_step(s: &Vec<char>, pos: usize) -> (r: Result<(usize, MsgAttComponent, bool), ParseFailure>)
    requires
        pos <= s.len(),
    ensures
        match r {
            Ok((p, c, more)) => pos < p <= s.len() && msg_att_list(s@.skip(pos as int)) == prepend(
                seq![c@],
                if more {
                    msg_att_list(s@.skip(p as int))
                } else {
                    Outcome::Parsed(s@.skip(p as int), seq![])
                },
            ),
            Err(ParseFailure::Rejected(m)) => msg_att_list(s@.skip(pos as int)) == Outcome::<
                Seq<SpecMsgAttComponent>,
            >::Rejected(m@),
            Err(ParseFailure::Unhandled) => msg_att_list(s@.skip(pos as int)) is Unhandled,
        },
{
    proof {
        reveal_strlit(" ");
    }
    let ghost w = s@.skip(pos as int);
    if !MsgAttStatic::can_parse(s, pos) {
        return Err(ParseFailure::Unhandled);
    }
    let (p2, a) = MsgAttStatic::parse_new(s, pos)?;
    proof {
        MsgAttStatic::lemma_parse_len(w);
    }
    let c = MsgAttComponent::MsgAttStatic(a);
    if starts_with_at(s, p2, s.len(), " ") {
        assert(s@.skip(p2 + 1) == s@.skip(p2 as int).skip(1));
        Ok((p2 + 1, c, true))
    } else {
        Ok((p2, c, false))
    }
}

pub fn parse_msg_att(s: &Vec<char>, pos: usize) -> (r: Result<(usize, Vec<MsgAttComponent>), ParseFailure>)
    requires
        pos <= s.len(),
    ensures
        agrees(r, spec_parse_msg_att(s@.skip(pos as int)), s@),
{
    let (p0, _) = expect(s, pos, "(")?;
    let mut p = p0;
    let mut items: Vec<MsgAttComponent> = Vec::new();
    let mut more = !starts_with_at(s, p0, s.len(), ")");
    assert(items.deep_view() + seq![] =~= items.deep_view());
    while more
        invariant
            p0 <= p <= s.len(),
            spec_parse_msg_att(s@.skip(pos as int)) == close_msg_att(
                prepend(
                    items.deep_view(),
                    if more {
                        msg_att_list(s@.skip(p as int))
                    } else {
                        Outcome::Parsed(s@.skip(p as int), seq![])
                    },
                ),
            ),
        decreases s.len() - p,
    {
        let ghost before = items.deep_view();
        let (p2, c, m) = parse_msg_att_step(s, p)?;
        let ghost cv = c@;
        items.push(c);
        assert(items.deep_view() =~= before + seq![cv]);
        proof {
            lemma_prepend_prepend(
                before,
                seq![cv],
                if m {
                    msg_att_list(s@.skip(p2 as int))
                } else {
                    Outcome::Parsed(s@.skip(p2 as int), seq![])
                },
            );
        }
        p = p2;
        more = m;
    }
    assert(items.deep_view() + seq![] =~= items.deep_view());
    let (p3, _) = expect(s, p, ")")?;
    Ok((p3, items))
}

impl MessageDataComponent {
    pub open spec fn spec_can_parse(s: Seq<char>) -> bool {
        starts_with(s, "EXPUNGE"@) || starts_with(s, "FETCH "@)
    }

    /// `EXPUNGE`, or `FETCH ` and a `msg-att`.
    pub open spec fn spec_parse(s: Seq<char>) -> Outcome<SpecMessageDataComponent> {
        if starts_with(s, "EXPUNGE"@) {
            Outcome::Parsed(s.skip(7), SpecMessageDataComponent::Expunge)
        } else if starts_with(s, "FETCH "@) {
            match spec_parse_msg_att(s.skip(6)) {
                Outcome::Parsed(r, atts) => Outcome::Parsed(r, SpecMessageDataComponent::Fetch(atts)),
                o => fail_as(o),
            }
        } else {
            Outcome::Rejected("MessageDataComponent parsing failure"@)
        }
    }

    pub proof fn lemma_parse_len(s: Seq<char>)
        ensures
            shorter(Self::spec_parse(s), s),
    {
        reveal_strlit("EXPUNGE");
        reveal_strlit("FETCH ");
        if starts_with(s, "FETCH "@) {
            lemma_parse_msg_att_len(s.skip(6));
        }
    }

    pub fn can_parse(s: &Vec<char>, pos: usize) -> (b: bool)
        requires
            pos <= s.len(),
        ensures
            b == Self::spec_can_parse(s@.skip(pos as int)),
    {
        starts_with_at(s, pos, s.len(), "EXPUNGE") || starts_with_at(s, pos, s.len(), "FETCH ")
    }

    pub fn parse_new(s: &Vec<char>, pos: usize) -> (r: Result<(usize, MessageDataComponent), ParseFailure>)
        requires
            pos <= s.len(),
        ensures
            agrees(r, Self::spec_parse(s@.skip(pos as int)), s@),
    {
        proof {
            reveal_strlit("EXPUNGE");
            reveal_strlit("FETCH ");
        }
        if starts_with_at(s, pos, s.len(), "EXPUNGE") {
            assert(s@.skip(pos + 7) == s@.skip(pos as int).skip(7));
            Ok((pos + 7, MessageDataComponent::Expunge))
        } else if starts_with_at(s, pos, s.len(), "FETCH ") {
            assert(s@.skip(pos + 6) == s@.skip(pos as int).skip(6));
            let (p, atts) = parse_msg_att(s, pos + 6)?;
            Ok((p, MessageDataComponent::Fetch(atts)))
        } else {
            reject("MessageDataComponent parsing failure")
        }
    }
}

impl MessageData {
    /// The word before the first space is a number and a
    /// `message-data` component follows the space.
    pub open spec fn spec_can_parse(s: Seq<char>) -> bool {
        match split_once_char(s, ' ') {
            Some((fs, ss)) => spec_can_parse_nz_number(fs) && MessageDataComponent::spec_can_parse(ss),
            None => false,
        }
    }

    /// A number that fills the word before the first space, then the
    /// component after that space.
    pub open spec fn spec_parse(s: Seq<char>) -> Outcome<SpecMessageData> {
        match split_once_char(s, ' ') {
            None => Outcome::Rejected("String changed since match"@),
            Some((fs, ss)) => match spec_parse_nz_number(fs) {
                Outcome::Parsed(r, nz_number) => if r.len() != 0 {
                    Outcome::Rejected("Left over string"@)
                } else {
                    match MessageDataComponent::spec_parse(ss) {
                        Outcome::Parsed(r2, message_data_component) => Outcome::Parsed(
                            r2,
                            SpecMessageData { nz_number, message_data_component },
                        ),
                        o => fail_as(o),
                    }
                },
                o => fail_as(o),
            },
        }
    }

    pub proof fn lemma_parse_len(s: Seq<char>)
        ensures
            shorter(Self::spec_parse(s), s),
    {
        lemma_first_in_from_bounds(s, seq![' '], 0);
        if let Some((fs, ss)) = split_once_char(s, ' ') {
            MessageDataComponent::lemma_parse_len(ss);
        }
    }

    pub fn can_parse(s: &Vec<char>, pos: usize) -> (b: bool)
        requires
            pos <= s.len(),
        ensures
            b == Self::spec_can_parse(s@.skip(pos as int)),
    {
        let ghost w = s@.skip(pos as int);
        proof {
            reveal_strlit(" ");
            assert(" "@ =~= seq![' ']);
            lemma_first_in_from_bounds(w, seq![' '], 0);
        }
        assert(s@.subrange(pos as int, s.len() as int) == w);
        match first_in_at(s, pos, s.len(), " ") {
            Some(i) => {
                assert(s@.subrange(pos as int, i as int) == w.take(i - pos));
                assert(s@.skip(i + 1) == w.skip(i - pos + 1));
                can_parse_nz_number(s, pos, i) && MessageDataComponent::can_parse(s, i + 1)
            },
            None => false,
        }
    }

    pub fn parse_new(s: &Vec<char>, pos: usize) -> (r: Result<(usize, MessageData), ParseFailure>)
        requires
            pos <= s.len(),
        ensures
            agrees(r, Self::spec_parse(s@.skip(pos as int)), s@),
    {
        let ghost w = s@.skip(pos as int);
        proof {
            reveal_strlit(" ");
            assert(" "@ =~= seq![' ']);
            lemma_first_in_from_bounds(w, seq![' '], 0);
        }
        assert(s@.subrange(pos as int, s.len() as int) == w);
        match first_in_at(s, pos, s.len(), " ") {
            None => reject("String changed since match"),
            Some(i) => {
                assert(s@.subrange(pos as int, i as int) == w.take(i - pos));
                assert(s@.skip(i + 1) == w.skip(i - pos + 1));
                let (p, nz_number) = match parse_nz_number(s, pos, i) {
                    Ok(x) => x,
                    Err(e) => {
                        return Err(e);
                    },
                };
                if p != i {
                    return reject("Left over string");
                }
                let (p2, message_data_component) = MessageDataComponent::parse_new(s, i + 1)?;
                Ok((p2, MessageData { nz_number, message_data_component }))
            },
        }
    }
}

// ---------------------------------------------------------------------------
// continue-req, response-data, response-done, response
// ---------------------------------------------------------------------------

impl ContinueReq {
    pub open spec fn spec_can_parse(s: Seq<char>) -> bool {
        starts_with(s, "+ "@) && contains(s, "\r\n"@)
    }

    /// `+ `, a `resp-text`, then CRLF. (A `resp-text` may start any text,
    /// so the `base64` alternative, which is not handled, is never tried.)
    pub open spec fn spec_parse(s: Seq<char>) -> Outcome<SpecContinueReq> {
        match spec_remove_start("+ "@, s) {
            Outcome::Parsed(r, _) => if RespText::spec_can_parse(r) {
                match RespText::spec_parse(r) {
                    Outcome::Parsed(r1, t) => match spec_remove_start("\r\n"@, r1) {
                        Outcome::Parsed(r2, _) => Outcome::Parsed(r2, SpecContinueReq::RespText(t)),
                        o => fail_as(o),
                    },
                    o => fail_as(o),
                }
            } else {
                Outcome::Unhandled
            },
            o => fail_as(o),
        }
    }

    pub proof fn lemma_parse_len(s: Seq<char>)
        ensures
            shorter(Self::spec_parse(s), s),
    {
        reveal_strlit("+ ");
        reveal_strlit("\r\n");
        if starts_with(s, "+ "@) {
            RespText::lemma_parse_len(s.skip(2));
        }
    }

    pub fn can_parse(s: &Vec<char>, pos: usize) -> (b: bool)
        requires
            pos <= s.len(),
        ensures
            b == Self::spec_can_parse(s@.skip(pos as int)),
    {
        starts_with_at(s, pos, s.len(), "+ ") && find_at(s, pos, s.len(), "\r\n").is_some()
    }

    pub fn parse_new(s: &Vec<char>, pos: usize) -> (r: Result<(usize, ContinueReq), ParseFailure>)
        requires
            pos <= s.len(),
        ensures
            agrees(r, Self::spec_parse(s@.skip(pos as int)), s@),
    {
        let (p, _) = expect(s, pos, "+ ")?;
        if RespText::can_parse(s, p) {
            let (p1, t) = RespText::parse_new(s, p)?;
            let (p2, _) = expect(s, p1, "\r\n")?;
            Ok((p2, ContinueReq::RespText(t)))
        } else {
            Err(ParseFailure::Unhandled)
        }
    }
}

impl ResponseData {
    pub open spec fn spec_can_parse(s: Seq<char>) -> bool {
        starts_with(s, "* "@) && contains(s, "\r\n"@)
    }

    /// What follows `* `: a `resp-cond-bye`, a `resp-cond-state` or a
    /// `message-data`; `None` (with nothing read) when none of them starts.
    pub open spec fn body(r: Seq<char>) -> Outcome<Option<SpecResponseData>> {
        if RespCondBye::spec_can_parse(r) {
            match RespCondBye::spec_parse(r) {
                Outcome::Parsed(r1, t) => Outcome::Parsed(r1, Some(SpecResponseData::RespCondBye(t))),
                o => fail_as(o),
            }
        } else if RespCondState::spec_can_parse(r) {
            match RespCondState::spec_parse(r) {
                Outcome::Parsed(r1, st) => Outcome::Parsed(
                    r1,
                    Some(SpecResponseData::RespCondState(st)),
                ),
                o => fail_as(o),
            }
        } else if MessageData::spec_can_parse(r) {
            match MessageData::spec_parse(r) {
                Outcome::Parsed(r1, m) => Outcome::Parsed(r1, Some(SpecResponseData::MessageData(m))),
                o => fail_as(o),
            }
        } else {
            Outcome::Parsed(r, None)
        }
    }

    /// `* `, the body, then CRLF; without a body, an error once the CRLF
    /// has been found.
    pub open spec fn spec_parse(s: Seq<char>) -> Outcome<SpecResponseData> {
        match spec_remove_start("* "@, s) {
            Outcome::Parsed(r, _) => match Self::body(r) {
                Outcome::Parsed(r1, rd) => match spec_remove_start("\r\n"@, r1) {
                    Outcome::Parsed(r2, _) => match rd {
                        Some(d) => Outcome::Parsed(r2, d),
                        None => Outcome::Rejected(
                            "ResponseData parsing failure:No response data component"@,
                        ),
                    },
                    o => fail_as(o),
                },
                o => fail_as(o),
            },
            o => fail_as(o),
        }
    }

    pub proof fn lemma_parse_len(s: Seq<char>)
        ensures
            shorter(Self::spec_parse(s), s),
    {
        reveal_strlit("* ");
        reveal_strlit("\r\n");
        if starts_with(s, "* "@) {
            let r = s.skip(2);
            RespCondBye::lemma_parse_len(r);
            RespCondState::lemma_parse_len(r);
            MessageData::lemma_parse_len(r);
        }
    }

    pub fn can_parse(s: &Vec<char>, pos: usize) -> (b: bool)
        requires
            pos <= s.len(),
        ensures
            b == Self::spec_can_parse(s@.skip(pos as int)),
    {
        starts_with_at(s, pos, s.len(), "* ") && find_at(s, pos, s.len(), "\r\n").is_some()
    }

    fn parse_body(s: &Vec<char>, pos: usize) -> (r: Result<(usize, Option<ResponseData>), ParseFailure>)
        requires
            pos <= s.len(),
        ensures
            agrees(r, Self::body(s@.skip(pos as int)), s@),
    {
        if RespCondBye::can_parse(s, pos) {
            let (p, b) = RespCondBye::parse_new(s, pos)?;
            Ok((p, Some(ResponseData::RespCondBye(b))))
        } else if RespCondState::can_parse(s, pos) {
            let (p, st) = RespCondState::parse_new(s, pos)?;
            Ok((p, Some(ResponseData::RespCondState(st))))
        } else if MessageData::can_parse(s, pos) {
            let (p, m) = MessageData::parse_new(s, pos)?;
            Ok((p, Some(ResponseData::MessageData(m))))
        } else {
            Ok((pos, None))
        }
    }

    pub fn parse_new(s: &Vec<char>, pos: usize) -> (r: Result<(usize, ResponseData), ParseFailure>)
        requires
            pos <= s.len(),
        ensures
            agrees(r, Self::spec_parse(s@.skip(pos as int)), s@),
    {
        let (p, _) = expect(s, pos, "* ")?;
        let (p1, rd) = Self::parse_body(s, p)?;
        let (p2, _) = expect(s, p1, "\r\n")?;
        match rd {
            Some(d) => Ok((p2, d)),
            None => reject("ResponseData parsing failure:No response data component"),
        }
    }
}

impl ResponseFatal {
    pub open spec fn spec_can_parse(s: Seq<char>) -> bool {
        starts_with(s, "* "@) && contains(s, "\r\n"@)
    }

    /// `* `, a `resp-cond-bye`, then CRLF.
    pub open spec fn spec_parse(s: Seq<char>) -> Outcome<SpecRespText> {
        match spec_remove_start("* "@, s) {
            Outcome::Parsed(r, _) => match RespCondBye::spec_parse(r) {
                Outcome::Parsed(r1, t) => match spec_remove_start("\r\n"@, r1) {
                    Outcome::Parsed(r2, _) => Outcome::Parsed(r2, t),
                    o => fail_as(o),
                },
                o => fail_as(o),
            },
            o => fail_as(o),
        }
    }

    pub fn can_parse(s: &Vec<char>, pos: usize) -> (b: bool)
        requires
            pos <= s.len(),
        ensures
            b == Self::spec_can_parse(s@.skip(pos as int)),
    {
        starts_with_at(s, pos, s.len(), "* ") && find_at(s, pos, s.len(), "\r\n").is_some()
    }

    pub fn parse_new(s: &Vec<char>, pos: usize) -> (r: Result<(usize, ResponseFatal), ParseFailure>)
        requires
            pos <= s.len(),
        ensures
            agrees(r, Self::spec_parse(s@.skip(pos as int)), s@),
    {
        let (p, _) = expect(s, pos, "* ")?;
        let (p1, resp_cond_bye) = RespCondBye::parse_new(s, p)?;
        let (p2, _) = expect(s, p1, "\r\n")?;
        Ok((p2, ResponseFatal { resp_cond_bye }))
    }
}

impl ResponseTagged {
    pub open spec fn spec_can_parse(s: Seq<char>) -> bool {
        Tag::spec_can_parse(s)
    }

    /// A tag that fills the word before the first space, then a
    /// `resp-cond-state` after that space, then CRLF.
    pub open spec fn spec_parse(s: Seq<char>) -> Outcome<SpecResponseTagged> {
        match split_once_char(s, ' ') {
            None => Outcome::Rejected("ResponseTagged parse error"@),
            Some((fs, ss)) => match Tag::spec_parse(fs) {
                Outcome::Parsed(r, tag) => if r.len() != 0 {
                    Outcome::Rejected("ResponseTagged parse error:Left over string"@)
                } else {
                    match RespCondState::spec_parse(ss) {
                        Outcome::Parsed(r1, resp_cond_state) => match spec_remove_start(
                            "\r\n"@,
                            r1,
                        ) {
                            Outcome::Parsed(r2, _) => Outcome::Parsed(
                                r2,
                                SpecResponseTagged { tag, resp_cond_state },
                            ),
                            o => fail_as(o),
                        },
                        o => fail_as(o),
                    }
                },
                o => fail_as(o),
            },
        }
    }

    pub fn can_parse(s: &Vec<char>, pos: usize) -> (b: bool)
        requires
            pos <= s.len(),
        ensures
            b == Self::spec_can_parse(s@.skip(pos as int)),
    {
        Tag::can_parse(s, pos, s.len())
    }

    pub fn parse_new(s: &Vec<char>, pos: usize) -> (r: Result<(usize, ResponseTagged), ParseFailure>)
        requires
            pos <= s.len(),
        ensures
            agrees(r, Self::spec_parse(s@.skip(pos as int)), s@),
    {
        let ghost w = s@.skip(pos as int);
        proof {
            reveal_strlit(" ");
            assert(" "@ =~= seq![' ']);
            lemma_first_in_from_bounds(w, seq![' '], 0);
        }
        assert(s@.subrange(pos as int, s.len() as int) == w);
        match first_in_at(s, pos, s.len(), " ") {
            None => reject("ResponseTagged parse error"),
            Some(i) => {
                assert(s@.subrange(pos as int, i as int) == w.take(i - pos));
                assert(s@.skip(i + 1) == w.skip(i - pos + 1));
                let (p, tag) = match Tag::parse_new(s, pos, i) {
                    Ok(x) => x,
                    Err(e) => {
                        return Err(e);
                    },
                };
                if p != i {
                    return reject("ResponseTagged parse error:Left over string");
                }
                let (p1, resp_cond_state) = RespCondState::parse_new(s, i + 1)?;
                let (p2, _) = expect(s, p1, "\r\n")?;
                Ok((p2, ResponseTagged { tag, resp_cond_state }))
            },
        }
    }
}

impl ResponseDone {
    pub open spec fn spec_can_parse(s: Seq<char>) -> bool {
        ResponseFatal::spec_can_parse(s) || ResponseTagged::spec_can_parse(s)
    }

    /// A `response-fatal` where `* ` and a CRLF are found, else a
    /// `response-tagged`.
    pub open spec fn spec_parse(s: Seq<char>) -> Outcome<SpecResponseDone> {
        if ResponseFatal::spec_can_parse(s) {
            match ResponseFatal::spec_parse(s) {
                Outcome::Parsed(r, t) => Outcome::Parsed(r, SpecResponseDone::ResponseFatal(t)),
                o => fail_as(o),
            }
        } else if ResponseTagged::spec_can_parse(s) {
            match ResponseTagged::spec_parse(s) {
                Outcome::Parsed(r, t) => Outcome::Parsed(r, SpecResponseDone::ResponseTagged(t)),
                o => fail_as(o),
            }
        } else {
            Outcome::Rejected("ResponseDone parsing failure"@)
        }
    }

    pub fn can_parse(s: &Vec<char>, pos: usize) -> (b: bool)
        requires
            pos <= s.len(),
        ensures
            b == Self::spec_can_parse(s@.skip(pos as int)),
    {
        ResponseFatal::can_parse(s, pos) || ResponseTagged::can_parse(s, pos)
    }

    pub fn parse_new(s: &Vec<char>, pos: usize) -> (r: Result<(usize, ResponseDone), ParseFailure>)
        requires
            pos <= s.len(),
        ensures
            agrees(r, Self::spec_parse(s@.skip(pos as int)), s@),
    {
        if ResponseFatal::can_parse(s, pos) {
            let (p, f) = ResponseFatal::parse_new(s, pos)?;
            Ok((p, ResponseDone::ResponseFatal(f)))
        } else if ResponseTagged::can_parse(s, pos) {
            let (p, t) = ResponseTagged::parse_new(s, pos)?;
            Ok((p, ResponseDone::ResponseTagged(t)))
        } else {
            reject("ResponseDone parsing failure")
        }
    }
}

/// A `* BYE` line that is the last line of the text: the `response-fatal`
/// that ends a response.
pub open spec fn is_final_fatal(s: Seq<char>) -> bool {
    ResponseFatal::spec_can_parse(s) && (ResponseFatal::spec_parse(s) matches Outcome::Parsed(
        r,
        _,
    ) && r.len() == 0)
}

fn final_fatal_at(s: &Vec<char>, pos: usize) -> (b: bool)
    requires
        pos <= s.len(),
    ensures
        b == is_final_fatal(s@.skip(pos as int)),
{
    if ResponseFatal::can_parse(s, pos) {
        match ResponseFatal::parse_new(s, pos) {
            Ok((p, _)) => p == s.len(),
            Err(_) => false,
        }
    } else {
        false
    }
}

/// The `continue-req` and `response-data` lines at the front of a response,
/// up to a final `* BYE` line.
pub open spec fn response_items(s: Seq<char>) -> Outcome<Seq<SpecResponseComponent>>
    decreases s.len(),
{
    if ContinueReq::spec_can_parse(s) {
        match ContinueReq::spec_parse(s) {
            Outcome::Parsed(r, c) => {
                proof {
                    ContinueReq::lemma_parse_len(s);
                }
                prepend(seq![SpecResponseComponent::ContinueReq(c)], response_items(r))
            },
            o => fail_as(o),
        }
    } else if ResponseData::spec_can_parse(s) && !is_final_fatal(s) {
        match ResponseData::spec_parse(s) {
            Outcome::Parsed(r, d) => {
                proof {
                    ResponseData::lemma_parse_len(s);
                }
                prepend(seq![SpecResponseComponent::ResponseData(d)], response_items(r))
            },
            o => fail_as(o),
        }
    } else {
        Outcome::Parsed(s, seq![])
    }
}

impl Response {
    pub open spec fn spec_can_parse(s: Seq<char>) -> bool {
        true
    }

    /// The response lines, then a `response-done` (its presence is checked
    /// on the whole text `s`).
    pub open spec fn spec_parse(s: Seq<char>) -> Outcome<SpecResponse> {
        Self::finish(s, response_items(s))
    }

    /// The response once its lines are read as `o`.
    pub open spec fn finish(s: Seq<char>, o: Outcome<Seq<SpecResponseComponent>>) -> Outcome<SpecResponse> {
        match o {
            Outcome::Parsed(r, response_components) => if !ResponseDone::spec_can_parse(s) {
                Outcome::Rejected("ResponseDone not found"@)
            } else {
                match ResponseDone::spec_parse(r) {
                    Outcome::Parsed(r2, response_done) => Outcome::Parsed(
                        r2,
                        SpecResponse { response_components, response_done },
                    ),
                    o2 => fail_as(o2),
                }
            },
            o => fail_as(o),
        }
    }

    pub fn can_parse(s: &Vec<char>, pos: usize) -> (b: bool)
        requires
            pos <= s.len(),
        ensures
            b == Self::spec_can_parse(s@.skip(pos as int)),
    {
        true
    }

    pub fn parse_new(s: &Vec<char>, pos: usize) -> (r: Result<(usize, Response), ParseFailure>)
        requires
            pos <= s.len(),
        ensures
            agrees(r, Self::spec_parse(s@.skip(pos as int)), s@),
    {
        let ghost w = s@.skip(pos as int);
        let mut p = pos;
        let mut items: Vec<ResponseComponent> = Vec::new();
        assert(items.deep_view() + seq![] =~= items.deep_view());
        while ContinueReq::can_parse(s, p) || (ResponseData::can_parse(s, p) && !final_fatal_at(
            s,
            p,
        ))
            invariant
                pos <= p <= s.len(),
                w == s@.skip(pos as int),
                Self::spec_parse(w) == Self::finish(
                    w,
                    prepend(items.deep_view(), response_items(s@.skip(p as int))),
                ),
            decreases s.len() - p,
        {
            let ghost v = s@.skip(p as int);
            let ghost before = items.deep_view();
            if ContinueReq::can_parse(s, p) {
                let (p2, c) = ContinueReq::parse_new(s, p)?;
                proof {
                    ContinueReq::lemma_parse_len(v);
                }
                let item = ResponseComponent::ContinueReq(c);
                let ghost iv = item@;
                items.push(item);
                proof {
                    assert(items.deep_view() =~= before + seq![iv]);
                    lemma_prepend_prepend(before, seq![iv], response_items(s@.skip(p2 as int)));
                }
                p = p2;
            } else {
                let (p2, d) = ResponseData::parse_new(s, p)?;
                proof {
                    ResponseData::lemma_parse_len(v);
                }
                let item = ResponseComponent::ResponseData(d);
                let ghost iv = item@;
                items.push(item);
                proof {
                    assert(items.deep_view() =~= before + seq![iv]);
                    lemma_prepend_prepend(before, seq![iv], response_items(s@.skip(p2 as int)));
                }
                p = p2;
            }
        }
        assert(items.deep_view() + seq![] =~= items.deep_view());
        if !ResponseDone::can_parse(s, pos) {
            return reject("ResponseDone not found");
        }
        let (p3, response_done) = ResponseDone::parse_new(s, p)?;
        Ok((p3, Response { response_components: items, response_done }))
    }
}

/// A whole response: everything must be read.
pub open spec fn spec_parse_response(s: Seq<char>) -> Outcome<SpecResponse> {
    match Response::spec_parse(s) {
        Outcome::Parsed(r, resp) => if r.len() != 0 {
            Outcome::Rejected("Left over string in Response parsing"@)
        } else {
            Outcome::Parsed(r, resp)
        },
        o => o,
    }
}

/// Parses a complete server response: its lines, then the final tagged or
/// fatal line, with nothing left over. `Err(Unhandled)` exactly where the
/// text reaches a form this parser does not handle.
pub fn try_parse_response(s: String) -> (r: Result<Response, ParseFailure>)
    ensures
        match spec_parse_response(s@) {
            Outcome::Parsed(_, m) => r matches Ok(v) && v@ == m,
            Outcome::Rejected(e) => r matches Err(ParseFailure::Rejected(m)) && m@ == e,
            Outcome::Unhandled => r == Err::<Response, ParseFailure>(ParseFailure::Unhandled),
        },
{
    let cs = crate::text::chars_of(s.as_str());
    assert(cs@.skip(0) == cs@);
    let (p, resp) = Response::parse_new(&cs, 0)?;
    if p != cs.len() {
        return reject("Left over string in Response parsing");
    }
    Ok(resp)
}

/// Parses a complete server response; an error message where it is
/// malformed. The text must not reach a form this parser does not handle.
pub fn parse_response(s: String) -> (r: Result<Response, String>)
    requires
        !(spec_parse_response(s@) is Unhandled),
    ensures
        match spec_parse_response(s@) {
            Outcome::Parsed(_, m) => r matches Ok(v) && v@ == m,
            Outcome::Rejected(e) => r matches Err(m) && m@ == e,
            Outcome::Unhandled => false,
        },
{
    match try_parse_response(s) {
        Ok(v) => Ok(v),
        Err(ParseFailure::Rejected(m)) => Err(m),
        Err(ParseFailure::Unhandled) => Err(String::new()),
    }
}

} // verus!
