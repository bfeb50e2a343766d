//! Message header fields (RFC 2045 / RFC 822 style `name: body` lines with
//! folded continuation lines), and their models.
use vstd::prelude::*;

verus! {

/// One header field.
#[derive(Debug, PartialEq, Eq)]
pub struct Field {
    pub field_name: FieldName,
    pub field_body: Option<FieldBody>,
}

/// A field name, in lower case.
#[derive(Debug, PartialEq, Eq)]
pub struct FieldName {
    pub chars: String,
}

/// A field body: its first line and the continuation lines folded after it.
#[derive(Debug, PartialEq, Eq)]
pub struct FieldBody {
    pub field_body_contents: FieldBodyContents,
    pub next_field_body: Option<Box<FieldBody>>,
}

/// The text of one line of a field body.
#[derive(Debug, PartialEq, Eq)]
pub struct FieldBodyContents {
    pub ascii: String,
}

/// The model of a field: its name, and the lines of its body.
pub struct SpecField {
    pub field_name: Seq<char>,
    pub field_body: Option<Seq<Seq<char>>>,
}

/// The lines of a field body, first line first.
pub open spec fn body_lines(b: FieldBody) -> Seq<Seq<char>>
    decreases b,
{
    seq![b.field_body_contents.ascii@] + match b.next_field_body {
        Some(n) => body_lines(*n),
        None => Seq::<Seq<char>>::empty(),
    }
}

impl View for FieldBody {
    type V = Seq<Seq<char>>;

    open spec fn view(&self) -> Seq<Seq<char>> {
        body_lines(*self)
    }
}

impl DeepView for FieldBody {
    type V = Seq<Seq<char>>;

    open spec fn deep_view(&self) -> Seq<Seq<char>> {
        self.view()
    }
}

impl View for FieldName {
    type V = Seq<char>;

    open spec fn view(&self) -> Seq<char> {
        self.chars@
    }
}

impl DeepView for FieldName {
    type V = Seq<char>;

    open spec fn deep_view(&self) -> Seq<char> {
        self.view()
    }
}

impl View for FieldBodyContents {
    type V = Seq<char>;

    open spec fn view(&self) -> Seq<char> {
        self.ascii@
    }
}

impl DeepView for FieldBodyContents {
    type V = Seq<char>;

    open spec fn deep_view(&self) -> Seq<char> {
        self.view()
    }
}

impl View for Field {
    type V = SpecField;

    open spec fn view(&self) -> SpecField {
        SpecField {
            field_name: self.field_name@,
            field_body: match self.field_body {
                Some(b) => Some(b@),
                None => None,
            },
        }
    }
}

impl DeepView for Field {
    type V = SpecField;

    open spec fn deep_view(&self) -> SpecField {
        self.view()
    }
}

} // verus!
