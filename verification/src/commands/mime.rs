//! The `mime` command: check that a message is a MIME multipart message,
//! find its boundary, and find its first plain-text UTF-8 part.
use vstd::prelude::*;
use crate::commands::{exit_parsing, exit_parsing_with, exits_with, Exit};
use crate::lexicon::rfc2045::{body_lines, Field, FieldBody, SpecField};
use crate::parsing::general::{remove_start, Outcome, ParseFailure};
use crate::parsing::rfc2045::{get_headers, spec_get_headers};
use crate::text::{
    before_first, chars_of, contains, find_at, lemma_find_from_bounds, lemma_token_end_bounds,
    split_on, split_pieces, starts_with, starts_with_at, string_of, token_end, token_end_at,
};

verus! {

broadcast use vstd::string::group_string_axioms;

// ---------------------------------------------------------------------------
// Field body values
// ---------------------------------------------------------------------------

/// The values of one line of a field body: a trailing `;` is dropped, and
/// a line that still holds a `;` is split at each `; `.
pub open spec fn unfold_contents(c: Seq<char>) -> Seq<Seq<char>> {
    let c1 = if c.len() > 0 && c.last() == ';' {
        c.drop_last()
    } else {
        c
    };
    if !contains(c1, ";"@) {
        seq![c1]
    } else {
        split_on(c1, "; "@)
    }
}

/// The values of all the lines of a field body, in order.
pub open spec fn body_values(lines: Seq<Seq<char>>) -> Seq<Seq<char>>
    decreases lines.len(),
{
    if lines.len() == 0 {
        Seq::empty()
    } else {
        unfold_contents(lines[0]) + body_values(lines.drop_first())
    }
}

/// The values of one line of a field body.
fn unfold_line(c: &String, out: &mut Vec<String>)
    ensures
        final(out).deep_view() == old(out).deep_view() + unfold_contents(c@),
{
    proof {
        reveal_strlit(";");
        reveal_strlit("; ");
    }
    let cs = chars_of(c.as_str());
    let n = cs.len();
    let end = if n > 0 && cs[n - 1] == ';' {
        n - 1
    } else {
        n
    };
    let ghost c1 = cs@.subrange(0, end as int);
    assert(c1 == (if c@.len() > 0 && c@.last() == ';' {
        c@.drop_last()
    } else {
        c@
    }));
    if find_at(&cs, 0, end, ";").is_none() {
        let ghost before = out.deep_view();
        out.push(string_of(&cs, 0, end));
        assert(out.deep_view() =~= before + seq![c1]);
    } else {
        let pieces = split_pieces(&cs, 0, end, "; ");
        let mut i: usize = 0;
        let ghost before = out.deep_view();
        assert(pieces.deep_view().take(0) =~= Seq::<Seq<char>>::empty());
        assert(before + Seq::<Seq<char>>::empty() =~= before);
        while i < pieces.len()
            invariant
                i <= pieces.len(),
                out.deep_view() == before + pieces.deep_view().take(i as int),
            decreases pieces.len() - i,
        {
            let ghost prev = out.deep_view();
            out.push(pieces[i].clone());
            assert(pieces.deep_view().take(i + 1) =~= pieces.deep_view().take(i as int).push(
                pieces.deep_view()[i as int],
            ));
            assert(out.deep_view() =~= prev.push(pieces.deep_view()[i as int]));
            i += 1;
        }
        assert(pieces.deep_view().take(pieces.len() as int) == pieces.deep_view());
    }
}

/// The values of all the lines of the field body `b`.
fn body_values_of(b: &FieldBody) -> (r: Vec<String>)
    ensures
        r.deep_view() == body_values(b@),
{
    let mut out: Vec<String> = Vec::new();
    let mut current = b;
    assert(out.deep_view() + body_values(b@) =~= body_values(b@));
    loop
        invariant
            body_values(b@) == out.deep_view() + body_values(current@),
        decreases current@.len(),
    {
        let ghost prev = out.deep_view();
        unfold_line(&current.field_body_contents.ascii, &mut out);
        assert(current@ == seq![current.field_body_contents.ascii@] + match current.next_field_body {
            Some(n) => body_lines(*n),
            None => Seq::<Seq<char>>::empty(),
        });
        assert(current@.drop_first() =~= match current.next_field_body {
            Some(n) => body_lines(*n),
            None => Seq::<Seq<char>>::empty(),
        });
        assert(body_values(current@) == unfold_contents(current.field_body_contents.ascii@)
            + body_values(current@.drop_first()));
        match &current.next_field_body {
            Some(n) => {
                assert(prev + (unfold_contents(current.field_body_contents.ascii@) + body_values(
                    n@,
                )) =~= out.deep_view() + body_values(n@));
                current = n;
            },
            None => {
                assert(body_values(Seq::<Seq<char>>::empty()) =~= Seq::<Seq<char>>::empty());
                assert(out.deep_view() + Seq::<Seq<char>>::empty() =~= out.deep_view());
                return out;
            },
        }
    }
}

/// The values of a field body, line after line: a trailing `;` is dropped
/// from each line, and a line that holds a `;` is split at each `; `.
pub fn field_bodies_to_vec(field_bodies: FieldBody) -> (r: Vec<String>)
    ensures
        r.deep_view() == body_values(field_bodies@),
{
    body_values_of(&field_bodies)
}

/// `v` holds the text `s`.
fn holds(v: &Vec<String>, s: &str) -> (b: bool)
    ensures
        b == v.deep_view().contains(s@),
{
    let t = String::from_str(s);
    let mut i: usize = 0;
    while i < v.len()
        invariant
            i <= v.len(),
            t@ == s@,
            forall|j: int| 0 <= j < i ==> v.deep_view()[j] != s@,
        decreases v.len() - i,
    {
        if v[i] == t {
            assert(v.deep_view()[i as int] == s@);
            return true;
        }
        i += 1;
    }
    false
}

// ---------------------------------------------------------------------------
// The MIME headers
// ---------------------------------------------------------------------------

/// How the `mime` command ends a step: with a value, by stopping the
/// program with an exit code and message, or at a form that is not handled.
pub enum Verdict<T> {
    Done(T),
    Exits(i32, Seq<char>),
    Unhandled,
}

/// The executable counterpart of the last two `Verdict`s.
#[derive(Debug, PartialEq, Eq)]
pub enum Halt {
    Exit(Exit),
    Unhandled,
}

/// The result `r` of a step matches the verdict `v`.
pub open spec fn decided(r: Result<String, Halt>, v: Verdict<Seq<char>>) -> bool {
    match v {
        Verdict::Done(x) => r matches Ok(s) && s@ == x,
        Verdict::Exits(code, m) => r matches Err(Halt::Exit(e)) && exits_with(e, code, m),
        Verdict::Unhandled => r matches Err(Halt::Unhandled),
    }
}

/// The boundary named by a `boundary=` value: the text after `boundary=`
/// and an optional `"`, up to the first `"` or `;`. `None` where that
/// offset falls inside a character.
pub open spec fn boundary_value(content: Seq<char>) -> Option<Seq<char>> {
    let rest = content.skip(9);
    let rest2 = if starts_with(rest, "\""@) {
        rest.skip(1)
    } else {
        rest
    };
    match token_end(rest2, "\";"@) {
        Some(k) => Some(rest2.take(k)),
        None => None,
    }
}

/// The boundary after reading `values` with `b` as the boundary so far:
/// each `boundary=` value replaces it. `None` where a value is not handled.
pub open spec fn boundary_scan(values: Seq<Seq<char>>, b: Option<Seq<char>>) -> Option<Option<Seq<char>>>
    decreases values.len(),
{
    if values.len() == 0 {
        Some(b)
    } else if starts_with(values[0], "boundary="@) {
        match boundary_value(values[0]) {
            Some(v) => boundary_scan(values.drop_first(), Some(v)),
            None => None,
        }
    } else {
        boundary_scan(values.drop_first(), b)
    }
}

/// A `content-type` field whose values hold `multipart/alternative`.
pub open spec fn is_multipart(h: SpecField) -> bool {
    h.field_name == "content-type"@ && h.field_body is Some && body_values(
        h.field_body->0,
    ).contains("multipart/alternative"@)
}

/// A `mime-version` field whose body is the single line `1.0`.
pub open spec fn is_mime_version(h: SpecField) -> bool {
    h.field_name == "mime-version"@ && h.field_body == Some(seq!["1.0"@])
}

/// The boundary and MIME-version flag after reading the fields `hs`,
/// starting from `b` and `flag`; `None` where a value is not handled.
pub open spec fn header_scan(hs: Seq<SpecField>, b: Option<Seq<char>>, flag: bool) -> Option<(Option<Seq<char>>, bool)>
    decreases hs.len(),
{
    if hs.len() == 0 {
        Some((b, flag))
    } else if is_multipart(hs[0]) {
        match boundary_scan(body_values(hs[0].field_body->0), b) {
            Some(b2) => header_scan(hs.drop_first(), b2, flag),
            None => None,
        }
    } else if is_mime_version(hs[0]) {
        header_scan(hs.drop_first(), b, true)
    } else {
        header_scan(hs.drop_first(), b, flag)
    }
}

/// The boundary of a MIME multipart message, from the text of its
/// `Content-Type` and `Mime-Version` headers: both must be present.
pub open spec fn spec_mime_boundary(headers: Seq<char>) -> Verdict<Seq<char>> {
    match spec_get_headers(headers) {
        Outcome::Parsed(_, hs) => boundary_verdict(header_scan(hs, None, false)),
        Outcome::Rejected(_) => Verdict::Exits(4, "Parsing failure in server response"@),
        Outcome::Unhandled => Verdict::Unhandled,
    }
}

/// The boundary once the fields are read: both a boundary and the MIME
/// version must have been found.
pub open spec fn boundary_verdict(o: Option<(Option<Seq<char>>, bool)>) -> Verdict<Seq<char>> {
    match o {
        Some((b, flag)) => if !flag || b is None {
            Verdict::Exits(4, "Email doesn't contain correct Mime headers"@)
        } else {
            Verdict::Done(b->0)
        },
        None => Verdict::Unhandled,
    }
}

/// The boundary named by `content`, which starts with `boundary=`.
fn read_boundary(content: &String) -> (r: Option<String>)
    requires
        starts_with(content@, "boundary="@),
    ensures
        r.deep_view() == boundary_value(content@),
{
    proof {
        reveal_strlit("boundary=");
        reveal_strlit("\"");
    }
    let cs = chars_of(content.as_str());
    let mut p: usize = 9;
    assert(cs@.skip(9) == cs@.subrange(9, cs.len() as int));
    if starts_with_at(&cs, p, cs.len(), "\"") {
        assert(cs@.skip(10) == cs@.skip(9).skip(1));
        p = 10;
    }
    let ghost rest2 = cs@.skip(p as int);
    assert(cs@.subrange(p as int, cs.len() as int) == rest2);
    proof {
        lemma_token_end_bounds(rest2, "\";"@);
    }
    match token_end_at(&cs, p, cs.len(), "\";") {
        Some(k) => {
            assert(cs@.subrange(p as int, k as int) == rest2.take(k - p));
            Some(string_of(&cs, p, k))
        },
        None => None,
    }
}

/// The MIME boundary named in the header text `headers` (the response to
/// a fetch of the `Content-Type` and `Mime-Version` fields).
pub fn mime_boundary(headers: String) -> (r: Result<String, Halt>)
    ensures
        decided(r, spec_mime_boundary(headers@)),
{
    proof {
        reveal_strlit("boundary=");
    }
    let ghost hv = headers@;
    let fields = match get_headers(headers) {
        Ok((_, fields)) => fields,
        Err(ParseFailure::Rejected(_)) => {
            return Err(Halt::Exit(exit_parsing()));
        },
        Err(ParseFailure::Unhandled) => {
            return Err(Halt::Unhandled);
        },
    };
    let ghost hs = fields.deep_view();
    let mut boundary: Option<String> = None;
    let mut flag = false;
    let mut i: usize = 0;
    assert(hs.skip(0) == hs);
    while i < fields.len()
        invariant
            i <= fields.len(),
            hs == fields.deep_view(),
            hs.len() == fields.len(),
            spec_mime_boundary(hv) == boundary_verdict(header_scan(hs, None, false)),
            hv == headers@,
            header_scan(hs, None, false) == header_scan(
                hs.skip(i as int),
                boundary.deep_view(),
                flag,
            ),
        decreases fields.len() - i,
    {
        let ghost rest = hs.skip(i as int);
        assert(rest[0] == fields[i as int]@);
        assert(rest.drop_first() == hs.skip(i + 1));
        let f = &fields[i];
        let name = String::from_str(f.field_name.chars.as_str());
        let content_type = String::from_str("content-type");
        let mime_version = String::from_str("mime-version");
        let mut multipart = false;
        let mut version = false;
        match &f.field_body {
            Some(body) => {
                let values = body_values_of(body);
                if name == content_type && holds(&values, "multipart/alternative") {
                    multipart = true;
                    let ghost start_b = boundary.deep_view();
                    let mut j: usize = 0;
                    let ghost vals = values.deep_view();
                    assert(vals.skip(0) == vals);
                    while j < values.len()
                        invariant
                            j <= values.len(),
                            vals == values.deep_view(),
                            vals.len() == values.len(),
                            i < hs.len(),
                            spec_mime_boundary(hv) == boundary_verdict(header_scan(hs, None, false)),
                            hv == headers@,
                            header_scan(hs, None, false) == header_scan(
                                hs.skip(i as int),
                                start_b,
                                flag,
                            ),
                            is_multipart(hs.skip(i as int)[0]),
                            body_values(hs.skip(i as int)[0].field_body->0) == vals,
                            boundary_scan(vals, start_b) == boundary_scan(
                                vals.skip(j as int),
                                boundary.deep_view(),
                            ),
                        decreases values.len() - j,
                    {
                        let ghost vr = vals.skip(j as int);
                        assert(vr[0] == values[j as int]@);
                        assert(vr.drop_first() == vals.skip(j + 1));
                        let vcs = chars_of(values[j].as_str());
                        assert(vcs@.subrange(0, vcs.len() as int) == vcs@);
                        if starts_with_at(&vcs, 0, vcs.len(), "boundary=") {
                            match read_boundary(&values[j]) {
                                Some(v) => {
                                    boundary = Some(v);
                                },
                                None => {
                                    assert(boundary_value(vr[0]) is None);
                                    assert(boundary_scan(vr, boundary.deep_view()) is None);
                                    assert(boundary_scan(vals, start_b) is None);
                                    assert(header_scan(hs.skip(i as int), start_b, flag) is None);
                                    assert(header_scan(hs, None, false) is None);
                                    return Err(Halt::Unhandled);
                                },
                            }
                        }
                        j += 1;
                    }
                    assert(vals.skip(values.len() as int).len() == 0);
                } else {
                    let one = String::from_str("1.0");
                    if name == mime_version && body.next_field_body.is_none()
                        && body.field_body_contents.ascii == one {
                        version = true;
                        assert(body@ =~= seq![body.field_body_contents.ascii@]);
                    } else {
                        proof {
                            if f@.field_name == "mime-version"@ && f@.field_body == Some(
                                seq!["1.0"@],
                            ) {
                                assert(body@.len() == 1);
                                match &body.next_field_body {
                                    Some(n) => {
                                        assert(body_lines(**n).len() >= 1);
                                        assert(body@.len() > 1);
                                    },
                                    None => {},
                                }
                            }
                        }
                    }
                }
            },
            None => {},
        }
        if version {
            flag = true;
        }
        i += 1;
    }
    assert(hs.skip(fields.len() as int).len() == 0);
    if !flag || boundary.is_none() {
        return Err(
            Halt::Exit(exit_parsing_with(String::from_str("Email doesn't contain correct Mime headers"))),
        );
    }
    match boundary {
        Some(b) => Ok(b),
        None => Err(Halt::Unhandled),
    }
}

// ---------------------------------------------------------------------------
// The plain-text part
// ---------------------------------------------------------------------------

/// A `content-type` field whose values hold `text/plain` and `charset=UTF-8`.
pub open spec fn content_type_ok(h: SpecField) -> bool {
    h.field_name == "content-type"@ && h.field_body is Some && body_values(
        h.field_body->0,
    ).contains("text/plain"@) && body_values(h.field_body->0).contains("charset=UTF-8"@)
}

/// A transfer encoding whose text the client prints as it is.
pub open spec fn is_plain_encoding(v: Seq<char>) -> bool {
    v == "quoted-printable"@ || v == "8bit"@ || v == "7bit"@
}

/// A `content-transfer-encoding` field with one of those encodings among
/// its values.
pub open spec fn encoding_ok(h: SpecField) -> bool {
    h.field_name == "content-transfer-encoding"@ && h.field_body is Some && exists|j: int|
        0 <= j < body_values(h.field_body->0).len() && #[trigger] is_plain_encoding(
            body_values(h.field_body->0)[j],
        )
}

/// A part whose fields say it is plain UTF-8 text in such an encoding.
pub open spec fn is_plaintext_part(hs: Seq<SpecField>) -> bool {
    (exists|i: int| 0 <= i < hs.len() && #[trigger] content_type_ok(hs[i])) && (exists|i: int|
        0 <= i < hs.len() && #[trigger] encoding_ok(hs[i]))
}

/// The body of the first plain-text part among `blocks`.
pub open spec fn block_scan(blocks: Seq<Seq<char>>) -> Verdict<Seq<char>>
    decreases blocks.len(),
{
    if blocks.len() == 0 {
        Verdict::Exits(4, "No plaintext block found"@)
    } else {
        match spec_get_headers(blocks[0]) {
            Outcome::Parsed(rest, hs) => if is_plaintext_part(hs) {
                Verdict::Done(rest)
            } else {
                block_scan(blocks.drop_first())
            },
            Outcome::Rejected(_) => Verdict::Exits(4, "Parsing failure in server response"@),
            Outcome::Unhandled => Verdict::Unhandled,
        }
    }
}

/// The line that separates the parts of a message with `boundary`.
pub open spec fn part_delimiter(boundary: Seq<char>) -> Seq<char> {
    "\r\n--"@ + boundary + "\r\n"@
}

/// The line that ends the last part of a message with `boundary`.
pub open spec fn end_delimiter(boundary: Seq<char>) -> Seq<char> {
    "\r\n--"@ + boundary + "--"@
}

/// The body of the first plain-text part of a multipart message: the text
/// before the end delimiter is split at the part delimiters, and the parts
/// are read in order.
pub open spec fn spec_plaintext_block(body: Seq<char>, boundary: Seq<char>) -> Verdict<Seq<char>> {
    block_scan(split_on(before_first(body, end_delimiter(boundary)), part_delimiter(boundary)))
}

/// One of the fields says the part is plain UTF-8 text.
fn has_plain_content_type(fields: &Vec<Field>) -> (b: bool)
    ensures
        b == exists|i: int|
            0 <= i < fields.deep_view().len() && #[trigger] content_type_ok(fields.deep_view()[i]),
{
    let ghost hs = fields.deep_view();
    let content_type = String::from_str("content-type");
    let mut i: usize = 0;
    while i < fields.len()
        invariant
            i <= fields.len(),
            hs == fields.deep_view(),
            hs.len() == fields.len(),
            content_type@ == "content-type"@,
            forall|j: int| 0 <= j < i ==> !#[trigger] content_type_ok(hs[j]),
        decreases fields.len() - i,
    {
        let f = &fields[i];
        assert(hs[i as int] == f@);
        match &f.field_body {
            Some(body) => {
                let values = body_values_of(body);
                if f.field_name.chars == content_type && holds(&values, "text/plain") && holds(
                    &values,
                    "charset=UTF-8",
                ) {
                    assert(content_type_ok(hs[i as int]));
                    return true;
                }
            },
            None => {},
        }
        i += 1;
    }
    false
}

/// One of `values` is a plain transfer encoding.
fn has_plain_encoding_value(values: &Vec<String>) -> (b: bool)
    ensures
        b == exists|j: int|
            0 <= j < values.deep_view().len() && #[trigger] is_plain_encoding(values.deep_view()[j]),
{
    let ghost vs = values.deep_view();
    let qp = String::from_str("quoted-printable");
    let b8 = String::from_str("8bit");
    let b7 = String::from_str("7bit");
    let mut j: usize = 0;
    while j < values.len()
        invariant
            j <= values.len(),
            vs == values.deep_view(),
            vs.len() == values.len(),
            qp@ == "quoted-printable"@,
            b8@ == "8bit"@,
            b7@ == "7bit"@,
            forall|k: int| 0 <= k < j ==> !#[trigger] is_plain_encoding(vs[k]),
        decreases values.len() - j,
    {
        assert(vs[j as int] == values[j as int]@);
        if values[j] == qp || values[j] == b8 || values[j] == b7 {
            assert(is_plain_encoding(vs[j as int]));
            return true;
        }
        j += 1;
    }
    false
}

/// One of the fields gives a plain transfer encoding.
fn has_plain_encoding(fields: &Vec<Field>) -> (b: bool)
    ensures
        b == exists|i: int|
            0 <= i < fields.deep_view().len() && #[trigger] encoding_ok(fields.deep_view()[i]),
{
    let ghost hs = fields.deep_view();
    let cte = String::from_str("content-transfer-encoding");
    let mut i: usize = 0;
    while i < fields.len()
        invariant
            i <= fields.len(),
            hs == fields.deep_view(),
            hs.len() == fields.len(),
            cte@ == "content-transfer-encoding"@,
            forall|j: int| 0 <= j < i ==> !#[trigger] encoding_ok(hs[j]),
        decreases fields.len() - i,
    {
        let f = &fields[i];
        assert(hs[i as int] == f@);
        match &f.field_body {
            Some(body) => {
                let values = body_values_of(body);
                if f.field_name.chars == cte && has_plain_encoding_value(&values) {
                    let ghost vs = values.deep_view();
                    let ghost j = choose|j: int|
                        0 <= j < vs.len() && #[trigger] is_plain_encoding(vs[j]);
                    assert(hs[i as int].field_body == Some(body@));
                    assert(is_plain_encoding(body_values(hs[i as int].field_body->0)[j]));
                    assert(encoding_ok(hs[i as int]));
                    return true;
                }
            },
            None => {},
        }
        i += 1;
    }
    false
}

/// The body of the first plain-text part of the multipart message `body`
/// whose parts are separated with `boundary`.
pub fn plaintext_block(body: &str, boundary: &str) -> (r: Result<String, Halt>)
    ensures
        decided(r, spec_plaintext_block(body@, boundary@)),
{
    proof {
        reveal_strlit("\r\n--");
        reveal_strlit("\r\n");
    }
    let mut end_delim = String::from_str("\r\n--");
    end_delim.append(boundary);
    end_delim.append("--");
    let mut part_delim = String::from_str("\r\n--");
    part_delim.append(boundary);
    part_delim.append("\r\n");
    let cs = chars_of(body);
    assert(cs@.subrange(0, cs.len() as int) == cs@);
    proof {
        lemma_find_from_bounds(cs@, end_delim@, 0);
    }
    let end = match find_at(&cs, 0, cs.len(), end_delim.as_str()) {
        Some(e) => e,
        None => cs.len(),
    };
    assert(cs@.subrange(0, end as int) == before_first(body@, end_delimiter(boundary@)));
    let blocks = split_pieces(&cs, 0, end, part_delim.as_str());
    let ghost bs = blocks.deep_view();
    let mut i: usize = 0;
    assert(bs.skip(0) == bs);
    while i < blocks.len()
        invariant
            i <= blocks.len(),
            bs == blocks.deep_view(),
            bs.len() == blocks.len(),
            spec_plaintext_block(body@, boundary@) == block_scan(bs.skip(i as int)),
        decreases blocks.len() - i,
    {
        let ghost rest = bs.skip(i as int);
        assert(rest[0] == blocks[i as int]@);
        assert(rest.drop_first() == bs.skip(i + 1));
        let block = blocks[i].clone();
        match get_headers(block) {
            Ok((text, fields)) => {
                if has_plain_content_type(&fields) && has_plain_encoding(&fields) {
                    return Ok(text);
                }
            },
            Err(ParseFailure::Rejected(_)) => {
                return Err(Halt::Exit(exit_parsing()));
            },
            Err(ParseFailure::Unhandled) => {
                return Err(Halt::Unhandled);
            },
        }
        i += 1;
    }
    Err(Halt::Exit(exit_parsing_with(String::from_str("No plaintext block found"))))
}

} // verus!
