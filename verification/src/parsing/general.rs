//! What every parser shares: the outcome of a parse, how an executable
//! result agrees with it, and removal of an expected prefix.
use vstd::prelude::*;
use crate::text::{chars_of, starts_with, starts_with_at, string_of};

verus! {

broadcast use vstd::string::group_string_axioms;

/// The meaning of a parse of the text `s`.
pub enum Outcome<T> {
    /// The parse succeeded with value `T`; the first field is the text left
    /// over after the parsed part.
    Parsed(Seq<char>, T),
    /// The parse failed with this message.
    Rejected(Seq<char>),
    /// The text reaches a part of the grammar that the parser does not
    /// handle (an unimplemented alternative, a number that does not fit in
    /// 32 bits, or a byte offset that falls inside a character); the
    /// program stops there.
    Unhandled,
}

/// A failed parse, as the executable parsers report it.
#[derive(Debug, PartialEq, Eq)]
pub enum ParseFailure {
    /// An ordinary parse error, with its message.
    Rejected(String),
    /// See `Outcome::Unhandled`.
    Unhandled,
}

/// The failure of `o`, carried over to an outcome of another type.
pub open spec fn fail_as<A, B>(o: Outcome<A>) -> Outcome<B> {
    match o {
        Outcome::Rejected(m) => Outcome::Rejected(m),
        _ => Outcome::Unhandled,
    }
}

/// A list outcome with `xs` put in front of the parsed list.
pub open spec fn prepend<A>(xs: Seq<A>, o: Outcome<Seq<A>>) -> Outcome<Seq<A>> {
    match o {
        Outcome::Parsed(r, ys) => Outcome::Parsed(r, xs + ys),
        other => other,
    }
}

/// Putting `xs` and then `ys` in front is putting `xs + ys` in front.
pub proof fn lemma_prepend_prepend<A>(xs: Seq<A>, ys: Seq<A>, o: Outcome<Seq<A>>)
    ensures
        prepend(xs, prepend(ys, o)) == prepend(xs + ys, o),
{
    if let Outcome::Parsed(r, zs) = o {
        assert(xs + (ys + zs) =~= (xs + ys) + zs);
    }
}

/// The executable result `r` of parsing from some position of the window
/// `s` agrees with the outcome `o`: on success, the returned position marks
/// the left-over text inside `s`, and the value's model is the parsed value.
pub open spec fn agrees<T: DeepView>(
    r: Result<(usize, T), ParseFailure>,
    o: Outcome<T::V>,
    s: Seq<char>,
) -> bool {
    match r {
        Ok((p, v)) => o matches Outcome::Parsed(rest, m) && p <= s.len() && s.skip(p as int)
            == rest && v.deep_view() == m,
        Err(ParseFailure::Rejected(e)) => o == Outcome::<T::V>::Rejected(e@),
        Err(ParseFailure::Unhandled) => o is Unhandled,
    }
}

/// The parsed text of a successful outcome is no longer than the input.
pub open spec fn no_longer<T>(o: Outcome<T>, s: Seq<char>) -> bool {
    o matches Outcome::Parsed(r, _) ==> r.len() <= s.len()
}

/// The parsed text of a successful outcome is shorter than the input.
pub open spec fn shorter<T>(o: Outcome<T>, s: Seq<char>) -> bool {
    o matches Outcome::Parsed(r, _) ==> r.len() < s.len()
}

/// The message of a failed `remove_start`.
pub open spec fn remove_start_message(start: Seq<char>, s: Seq<char>) -> Seq<char> {
    "String didn't start with \""@ + start + "\" full string is: "@ + s
}

/// Removing the prefix `start` from `s`.
pub open spec fn spec_remove_start(start: Seq<char>, s: Seq<char>) -> Outcome<()> {
    if starts_with(s, start) {
        Outcome::Parsed(s.skip(start.len() as int), ())
    } else {
        Outcome::Rejected(remove_start_message(start, s))
    }
}

/// `string` without its prefix `start`; an error naming both when `string`
/// does not begin with `start`.
pub fn remove_start(start: &str, string: String) -> (r: Result<String, String>)
    ensures
        starts_with(string@, start@) ==> (r matches Ok(rest) && rest@ == string@.skip(
            start@.len() as int,
        )),
        !starts_with(string@, start@) ==> (r matches Err(e) && e@ == remove_start_message(
            start@,
            string@,
        )),
{
    let cs = chars_of(string.as_str());
    assert(cs@.subrange(0, cs.len() as int) == cs@);
    if starts_with_at(&cs, 0, cs.len(), start) {
        Ok(string_of(&cs, start.unicode_len(), cs.len()))
    } else {
        Err(remove_start_error(start, string.as_str()))
    }
}

/// The message of a failed `remove_start` on `string`.
fn remove_start_error(start: &str, string: &str) -> (m: String)
    ensures
        m@ == remove_start_message(start@, string@),
{
    let mut m = String::from_str("String didn't start with \"");
    m.append(start);
    m.append("\" full string is: ");
    m.append(string);
    m
}

/// A rejection with a fixed message.
pub fn reject<T>(msg: &str) -> (r: Result<T, ParseFailure>)
    ensures
        r matches Err(ParseFailure::Rejected(e)) && e@ == msg@,
{
    Err(ParseFailure::Rejected(msg.to_string()))
}

/// Removing the prefix `lit` from `s[pos..]`.
pub fn expect(s: &Vec<char>, pos: usize, lit: &str) -> (r: Result<(usize, ()), ParseFailure>)
    requires
        pos <= s.len(),
    ensures
        agrees(r, spec_remove_start(lit@, s@.skip(pos as int)), s@),
{
    let ghost w = s@.skip(pos as int);
    assert(s@.subrange(pos as int, s.len() as int) == w);
    if starts_with_at(s, pos, s.len(), lit) {
        let p = pos + lit.unicode_len();
        assert(s@.skip(p as int) == w.skip(lit@.len() as int));
        Ok((p, ()))
    } else {
        let rest = string_of(s, pos, s.len());
        Err(ParseFailure::Rejected(remove_start_error(lit, rest.as_str())))
    }
}

} // verus!
