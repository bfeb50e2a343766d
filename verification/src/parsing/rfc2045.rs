//! Parsers for the header fields at the start of a message.
use vstd::prelude::*;
use crate::lexicon::rfc2045::{Field, FieldBody, FieldBodyContents, FieldName, SpecField};
use crate::parsing::general::{
    agrees, expect, fail_as, lemma_prepend_prepend, no_longer, prepend, shorter,
    spec_remove_start, Outcome, ParseFailure,
};
use crate::text::{
    chars_of, contains, find, find_at, lemma_find_from_bounds, lemma_token_end_bounds,
    starts_with, starts_with_at, string_of, token_end, token_end_at,
};

verus! {

broadcast use vstd::string::group_string_axioms;

/// The name of what `str::to_lowercase` returns for a text: its lowercase
/// form under Unicode's `Lowercase` mapping.
pub uninterp spec fn lowercase(s: Seq<char>) -> Seq<char>;

/// Calls `str::to_lowercase`. Claimed: the result depends on the text
/// alone (it is `lowercase` of it); nothing more is said of the mapping.
#[verifier::external_body]
fn to_lowercase(s: &str) -> (r: String)
    ensures
        r@ == lowercase(s@),
{
    s.to_lowercase()
}

impl FieldBodyContents {
    pub open spec fn spec_can_parse(s: Seq<char>) -> bool {
        !starts_with(s, "\r\n"@)
    }

    /// The characters up to the first CR or LF.
    pub open spec fn spec_parse(s: Seq<char>) -> Outcome<Seq<char>> {
        match token_end(s, "\r\n"@) {
            Some(k) => Outcome::Parsed(s.skip(k), s.take(k)),
            None => Outcome::Unhandled,
        }
    }

    pub proof fn lemma_parse_len(s: Seq<char>)
        ensures
            no_longer(Self::spec_parse(s), s),
    {
        lemma_token_end_bounds(s, "\r\n"@);
    }

    pub fn can_parse(s: &Vec<char>, pos: usize) -> (b: bool)
        requires
            pos <= s.len(),
        ensures
            b == Self::spec_can_parse(s@.skip(pos as int)),
    {
        !starts_with_at(s, pos, s.len(), "\r\n")
    }

    pub fn parse_new(s: &Vec<char>, pos: usize) -> (r: Result<(usize, FieldBodyContents), ParseFailure>)
        requires
            pos <= s.len(),
        ensures
            agrees(r, Self::spec_parse(s@.skip(pos as int)), s@),
    {
        let ghost w = s@.skip(pos as int);
        proof {
            lemma_token_end_bounds(w, "\r\n"@);
        }
        assert(s@.subrange(pos as int, s.len() as int) == w);
        match token_end_at(s, pos, s.len(), "\r\n") {
            Some(k) => {
                assert(s@.skip(k as int) == w.skip(k - pos));
                assert(s@.subrange(pos as int, k as int) == w.take(k - pos));
                Ok((k, FieldBodyContents { ascii: string_of(s, pos, k) }))
            },
            None => Err(ParseFailure::Unhandled),
        }
    }
}

impl FieldName {
    pub open spec fn spec_can_parse(s: Seq<char>) -> bool {
        !starts_with(s, ": "@)
    }

    /// The characters up to the first `:` or space, in lower case.
    pub open spec fn spec_parse(s: Seq<char>) -> Outcome<Seq<char>> {
        match token_end(s, ": "@) {
            Some(k) => Outcome::Parsed(s.skip(k), lowercase(s.take(k))),
            None => Outcome::Unhandled,
        }
    }

    pub proof fn lemma_parse_len(s: Seq<char>)
        ensures
            no_longer(Self::spec_parse(s), s),
    {
        lemma_token_end_bounds(s, ": "@);
    }

    pub fn can_parse(s: &Vec<char>, pos: usize) -> (b: bool)
        requires
            pos <= s.len(),
        ensures
            b == Self::spec_can_parse(s@.skip(pos as int)),
    {
        !starts_with_at(s, pos, s.len(), ": ")
    }

    pub fn parse_new(s: &Vec<char>, pos: usize) -> (r: Result<(usize, FieldName), ParseFailure>)
        requires
            pos <= s.len(),
        ensures
            agrees(r, Self::spec_parse(s@.skip(pos as int)), s@),
    {
        let ghost w = s@.skip(pos as int);
        proof {
            lemma_token_end_bounds(w, ": "@);
        }
        assert(s@.subrange(pos as int, s.len() as int) == w);
        match token_end_at(s, pos, s.len(), ": ") {
            Some(k) => {
                assert(s@.skip(k as int) == w.skip(k - pos));
                assert(s@.subrange(pos as int, k as int) == w.take(k - pos));
                let raw = string_of(s, pos, k);
                Ok((k, FieldName { chars: to_lowercase(raw.as_str()) }))
            },
            None => Err(ParseFailure::Unhandled),
        }
    }
}

impl FieldBody {
    pub open spec fn spec_can_parse(s: Seq<char>) -> bool {
        FieldBodyContents::spec_can_parse(s)
    }

    /// A line of contents; where CRLF and a space or a tab follow, the
    /// body goes on after them.
    pub open spec fn spec_parse(s: Seq<char>) -> Outcome<Seq<Seq<char>>>
        decreases s.len(),
    {
        match FieldBodyContents::spec_parse(s) {
            Outcome::Parsed(r, c) => if starts_with(r, "\r\n "@) || starts_with(r, "\r\n\t"@) {
                proof {
                    FieldBodyContents::lemma_parse_len(s);
                    reveal_strlit("\r\n ");
                    reveal_strlit("\r\n\t");
                }
                prepend(seq![c], Self::spec_parse(r.skip(3)))
            } else {
                Outcome::Parsed(r, seq![c])
            },
            o => fail_as(o),
        }
    }

    pub proof fn lemma_parse_len(s: Seq<char>)
        ensures
            no_longer(Self::spec_parse(s), s),
        decreases s.len(),
    {
        FieldBodyContents::lemma_parse_len(s);
        reveal_strlit("\r\n ");
        reveal_strlit("\r\n\t");
        if let Outcome::Parsed(r, _) = FieldBodyContents::spec_parse(s) {
            if starts_with(r, "\r\n "@) || starts_with(r, "\r\n\t"@) {
                Self::lemma_parse_len(r.skip(3));
            }
        }
    }

    pub fn can_parse(s: &Vec<char>, pos: usize) -> (b: bool)
        requires
            pos <= s.len(),
        ensures
            b == Self::spec_can_parse(s@.skip(pos as int)),
    {
        FieldBodyContents::can_parse(s, pos)
    }

    pub fn parse_new(s: &Vec<char>, pos: usize) -> (r: Result<(usize, FieldBody), ParseFailure>)
        requires
            pos <= s.len(),
        ensures
            agrees(r, Self::spec_parse(s@.skip(pos as int)), s@),
        decreases s.len() - pos,
    {
        let ghost w = s@.skip(pos as int);
        let (p, field_body_contents) = FieldBodyContents::parse_new(s, pos)?;
        proof {
            FieldBodyContents::lemma_parse_len(w);
            reveal_strlit("\r\n ");
            reveal_strlit("\r\n\t");
        }
        if starts_with_at(s, p, s.len(), "\r\n ") || starts_with_at(s, p, s.len(), "\r\n\t") {
            assert(s@.skip(p + 3) == s@.skip(p as int).skip(3));
            let (p2, part) = Self::parse_new(s, p + 3)?;
            let ghost c = field_body_contents@;
            let ghost tail = part@;
            let b = FieldBody { field_body_contents, next_field_body: Some(Box::new(part)) };
            assert(b@ == seq![c] + tail);
            Ok((p2, b))
        } else {
            let b = FieldBody { field_body_contents, next_field_body: None };
            assert(b@ =~= seq![b.field_body_contents@]);
            Ok((p, b))
        }
    }
}

/// The text up to the first CRLF (all of it without one).
pub open spec fn first_line(s: Seq<char>) -> Seq<char> {
    match find(s, "\r\n"@) {
        Some(i) => s.take(i),
        None => s,
    }
}

/// An optional field body: present where the text does not start with CRLF.
pub open spec fn optional_field_body(s: Seq<char>) -> Outcome<Option<Seq<Seq<char>>>> {
    if FieldBody::spec_can_parse(s) {
        match FieldBody::spec_parse(s) {
            Outcome::Parsed(r, b) => Outcome::Parsed(r, Some(b)),
            o => fail_as(o),
        }
    } else {
        Outcome::Parsed(s, None)
    }
}

impl Field {
    /// The first line holds a `:`.
    pub open spec fn spec_can_parse(s: Seq<char>) -> bool {
        contains(first_line(s), ":"@)
    }

    /// A name, `:`, an optional space, an optional body, then CRLF.
    pub open spec fn spec_parse(s: Seq<char>) -> Outcome<SpecField> {
        match FieldName::spec_parse(s) {
            Outcome::Parsed(r, field_name) => match spec_remove_start(":"@, r) {
                Outcome::Parsed(r1, _) => {
                    let r2 = if starts_with(r1, " "@) {
                        r1.skip(1)
                    } else {
                        r1
                    };
                    match optional_field_body(r2) {
                        Outcome::Parsed(r3, field_body) => match spec_remove_start("\r\n"@, r3) {
                            Outcome::Parsed(r4, _) => Outcome::Parsed(
                                r4,
                                SpecField { field_name, field_body },
                            ),
                            o => fail_as(o),
                        },
                        o => fail_as(o),
                    }
                },
                o => fail_as(o),
            },
            o => fail_as(o),
        }
    }

    pub proof fn lemma_parse_len(s: Seq<char>)
        ensures
            shorter(Self::spec_parse(s), s),
    {
        reveal_strlit(":");
        reveal_strlit(" ");
        reveal_strlit("\r\n");
        FieldName::lemma_parse_len(s);
        if let Outcome::Parsed(r, _) = FieldName::spec_parse(s) {
            if starts_with(r, ":"@) {
                let r1 = r.skip(1);
                let r2 = if starts_with(r1, " "@) {
                    r1.skip(1)
                } else {
                    r1
                };
                FieldBody::lemma_parse_len(r2);
            }
        }
    }

    pub fn can_parse(s: &Vec<char>, pos: usize) -> (b: bool)
        requires
            pos <= s.len(),
        ensures
            b == Self::spec_can_parse(s@.skip(pos as int)),
    {
        let ghost w = s@.skip(pos as int);
        proof {
            lemma_find_from_bounds(w, "\r\n"@, 0);
        }
        assert(s@.subrange(pos as int, s.len() as int) == w);
        let end = match find_at(s, pos, s.len(), "\r\n") {
            Some(i) => i,
            None => s.len(),
        };
        assert(s@.subrange(pos as int, end as int) == first_line(w));
        find_at(s, pos, end, ":").is_some()
    }

    pub fn parse_new(s: &Vec<char>, pos: usize) -> (r: Result<(usize, Field), ParseFailure>)
        requires
            pos <= s.len(),
        ensures
            agrees(r, Self::spec_parse(s@.skip(pos as int)), s@),
    {
        proof {
            reveal_strlit(" ");
        }
        let (p, field_name) = FieldName::parse_new(s, pos)?;
        let (mut p1, _) = expect(s, p, ":")?;
        if starts_with_at(s, p1, s.len(), " ") {
            assert(s@.skip(p1 + 1) == s@.skip(p1 as int).skip(1));
            p1 = p1 + 1;
        }
        let (p3, field_body) = if FieldBody::can_parse(s, p1) {
            let (p2, b) = FieldBody::parse_new(s, p1)?;
            (p2, Some(b))
        } else {
            (p1, None)
        };
        let (p4, _) = expect(s, p3, "\r\n")?;
        Ok((p4, Field { field_name, field_body }))
    }
}

/// The fields at the front of a text, for as long as a line holds a `:`.
pub open spec fn header_fields(s: Seq<char>) -> Outcome<Seq<SpecField>>
    decreases s.len(),
{
    if Field::spec_can_parse(s) {
        match Field::spec_parse(s) {
            Outcome::Parsed(r, f) => {
                proof {
                    Field::lemma_parse_len(s);
                }
                prepend(seq![f], header_fields(r))
            },
            o => fail_as(o),
        }
    } else {
        Outcome::Parsed(s, seq![])
    }
}

/// The header fields of a message, and the text after the blank line that
/// ends them (a text that ends with the fields has no such line).
pub open spec fn spec_get_headers(s: Seq<char>) -> Outcome<Seq<SpecField>> {
    finish_headers(header_fields(s))
}

/// The header fields at the start of a message, and the message body
/// after them. `Err(Rejected(..))` where the headers are malformed (the
/// program reports a parsing failure), `Err(Unhandled)` where a field
/// reaches a form this parser does not handle.
pub fn get_headers(string: String) -> (r: Result<(String, Vec<Field>), ParseFailure>)
    ensures
        match spec_get_headers(string@) {
            Outcome::Parsed(rest, fields) => r matches Ok((b, v)) && b@ == rest && v.deep_view()
                == fields,
            Outcome::Rejected(e) => r matches Err(ParseFailure::Rejected(m)) && m@ == e,
            Outcome::Unhandled => r == Err::<(String, Vec<Field>), ParseFailure>(
                ParseFailure::Unhandled,
            ),
        },
{
    let s = chars_of(string.as_str());
    let mut p: usize = 0;
    let mut headers: Vec<Field> = Vec::new();
    assert(s@.skip(0) == s@);
    assert(headers.deep_view() + seq![] =~= headers.deep_view());
    while Field::can_parse(&s, p)
        invariant
            p <= s.len(),
            s@ == string@,
            spec_get_headers(s@) == finish_headers(
                prepend(headers.deep_view(), header_fields(s@.skip(p as int))),
            ),
        decreases s.len() - p,
    {
        let ghost w = s@.skip(p as int);
        let (p2, f) = match Field::parse_new(&s, p) {
            Ok(x) => x,
            Err(e) => {
                return Err(e);
            },
        };
        proof {
            Field::lemma_parse_len(w);
        }
        let ghost before = headers.deep_view();
        let ghost fv = f@;
        headers.push(f);
        proof {
            assert(headers.deep_view() =~= before + seq![fv]);
            lemma_prepend_prepend(before, seq![fv], header_fields(s@.skip(p2 as int)));
        }
        p = p2;
    }
    assert(headers.deep_view() + seq![] =~= headers.deep_view());
    if p == s.len() {
        return Ok((string_of(&s, p, s.len()), headers));
    }
    let (p3, _) = match expect(&s, p, "\r\n") {
        Ok(x) => x,
        Err(e) => {
            return Err(e);
        },
    };
    Ok((string_of(&s, p3, s.len()), headers))
}

/// The headers once the blank line after them is removed.
pub open spec fn finish_headers(o: Outcome<Seq<SpecField>>) -> Outcome<Seq<SpecField>> {
    match o {
        Outcome::Parsed(r, fields) => if r.len() == 0 {
            Outcome::Parsed(r, fields)
        } else {
            match spec_remove_start("\r\n"@, r) {
                Outcome::Parsed(r2, _) => Outcome::Parsed(r2, fields),
                o2 => fail_as(o2),
            }
        },
        o => o,
    }
}

} // verus!
