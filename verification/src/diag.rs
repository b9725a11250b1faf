//! Positioned diagnostics.
//!
//! A scan collects one `Error` per lexical defect: the character range
//! it covers in the source line, a copy of the offending slice, and a
//! defect kind from which the human message and the expected-token
//! label are rendered.  Diagnostics are copies, never views into the
//! token sequence, so they outlive the scan that produced them.

use vstd::prelude::*;

verus! {

/// The kind of one lexical defect.
#[derive(Clone, Copy, Debug, PartialEq, Eq, Structural)]
pub enum DiagKind {
    /// A blob element that is not a plain digit run.
    BlobNotU8,
    /// A blob element whose value does not fit in one byte.
    BlobTooLarge,
    /// A blob whose element list ends up empty.
    BlobEmpty,
    /// A char literal whose character is not alphabetic.
    CharInvalid,
    /// Catch-all: slice starting with a double quote.
    MalformedString,
    /// Catch-all: slice starting with a percent sign.
    MalformedBlob,
    /// Catch-all: slice starting with an at sign.
    MalformedTimeTag,
    /// Catch-all: slice starting with a single quote.
    MalformedChar,
    /// Catch-all: slice starting with a number sign.
    MalformedColor,
    /// Catch-all: slice starting with a tilde.
    MalformedMidi,
    /// Catch-all: slice starting with an underscore.
    MalformedSuffix,
    /// Catch-all: any other unreadable slice.
    MalformedIdent,
}

/// One positioned diagnostic.
#[derive(Debug, Clone, PartialEq)]
pub struct Error {
    /// First character position the diagnostic covers.
    pub start: usize,
    /// One past the last character position it covers.
    pub end: usize,
    /// A copy of the offending slice.
    pub text: String,
    /// The defect kind.
    pub kind: DiagKind,
}

/// The mathematical shape of an `Error`.
pub struct SpecDiag {
    pub start: int,
    pub end: int,
    pub text: Seq<char>,
    pub kind: DiagKind,
}

impl DeepView for Error {
    type V = SpecDiag;

    open spec fn deep_view(&self) -> SpecDiag {
        SpecDiag { start: self.start as int, end: self.end as int, text: self.text@, kind: self.kind }
    }
}

/// The human message each defect kind renders to.
pub open spec fn sp_message(k: DiagKind) -> Seq<char> {
    match k {
        DiagKind::BlobNotU8 => "Blob value should be <u8>"@,
        DiagKind::BlobTooLarge => "number too large to fit in target type, Blob value should be <u8>"@,
        DiagKind::BlobEmpty => "Blob value should be <u8>"@,
        DiagKind::CharInvalid => "invalid char, or ending single quote is missing/mismatch."@,
        DiagKind::MalformedString => "malformed string: missing closing double quote"@,
        DiagKind::MalformedBlob => "malformed blob: expected %[v1,v2,...] with <u8> values"@,
        DiagKind::MalformedTimeTag => "malformed time tag: expected @seconds.fractional"@,
        DiagKind::MalformedChar => "malformed char: expected one alphabetic character in single quotes"@,
        DiagKind::MalformedColor => "malformed color: expected # and eight hex digits"@,
        DiagKind::MalformedMidi => "malformed MIDI message: expected ~ and eight hex digits"@,
        DiagKind::MalformedSuffix => "malformed numeric-suffix literal"@,
        DiagKind::MalformedIdent => "Invalid message: The identity keyword only supports [true, false, Nil, Inf]."@,
    }
}

/// The expected-token label each defect kind renders to.
pub open spec fn sp_expected(k: DiagKind) -> Seq<char> {
    match k {
        DiagKind::BlobNotU8 => "Illegal"@,
        DiagKind::BlobTooLarge => "Blob"@,
        DiagKind::BlobEmpty => "Blob"@,
        DiagKind::CharInvalid => "Char"@,
        DiagKind::MalformedString => "StringLiteral"@,
        DiagKind::MalformedBlob => "Blob"@,
        DiagKind::MalformedTimeTag => "TimeMsg"@,
        DiagKind::MalformedChar => "Char"@,
        DiagKind::MalformedColor => "Color"@,
        DiagKind::MalformedMidi => "MidiMessage"@,
        DiagKind::MalformedSuffix => "IntLiteral"@,
        DiagKind::MalformedIdent => "Ident"@,
    }
}

/// Decimal rendering of a non-negative number, most significant digit first.
pub open spec fn sp_dec_str(n: int) -> Seq<char>
    decreases n,
{
    if n < 0 {
        Seq::empty()
    } else if n < 10 {
        seq![sp_digit_char(n)]
    } else {
        sp_dec_str(n / 10).push(sp_digit_char(n % 10))
    }
}

/// The character for one decimal digit.
pub open spec fn sp_digit_char(d: int) -> char {
    if d == 0 { '0' }
    else if d == 1 { '1' }
    else if d == 2 { '2' }
    else if d == 3 { '3' }
    else if d == 4 { '4' }
    else if d == 5 { '5' }
    else if d == 6 { '6' }
    else if d == 7 { '7' }
    else if d == 8 { '8' }
    else { '9' }
}

/// The rendered range column, `(start..end)`.
pub open spec fn sp_range_str(start: int, end: int) -> Seq<char> {
    "("@ + sp_dec_str(start) + ".."@ + sp_dec_str(end) + ")"@
}

/// One decimal digit as a borrowed string.
fn digit_str(d: u32) -> (r: &'static str)
    requires
        d <= 9,
    ensures
        r@ == seq![sp_digit_char(d as int)],
{
    proof {
        reveal_strlit("0");
        reveal_strlit("1");
        reveal_strlit("2");
        reveal_strlit("3");
        reveal_strlit("4");
        reveal_strlit("5");
        reveal_strlit("6");
        reveal_strlit("7");
        reveal_strlit("8");
        reveal_strlit("9");
    }
    if d == 0 { "0" }
    else if d == 1 { "1" }
    else if d == 2 { "2" }
    else if d == 3 { "3" }
    else if d == 4 { "4" }
    else if d == 5 { "5" }
    else if d == 6 { "6" }
    else if d == 7 { "7" }
    else if d == 8 { "8" }
    else { "9" }
}

/// Appends the decimal rendering of `n` to `out`.
fn push_dec(out: &mut String, n: usize)
    ensures
        final(out)@ == old(out)@ + sp_dec_str(n as int),
    decreases n,
{
    if n >= 10 {
        push_dec(out, n / 10);
        out.append(digit_str((n % 10) as u32));
    } else {
        out.append(digit_str(n as u32));
    }
}

impl Error {
    /// Builds a diagnostic from its parts.
    pub fn new(start: usize, end: usize, text: String, kind: DiagKind) -> (r: Error)
        ensures
            r.start == start,
            r.end == end,
            r.text == text,
            r.kind == kind,
    {
        Error { start, end, text, kind }
    }

    /// The human message for this diagnostic.
    pub fn message(&self) -> (r: String)
        ensures
            r@ == sp_message(self.kind),
    {
        match self.kind {
            DiagKind::BlobNotU8 => String::from_str("Blob value should be <u8>"),
            DiagKind::BlobTooLarge => String::from_str(
                "number too large to fit in target type, Blob value should be <u8>",
            ),
            DiagKind::BlobEmpty => String::from_str("Blob value should be <u8>"),
            DiagKind::CharInvalid => String::from_str(
                "invalid char, or ending single quote is missing/mismatch.",
            ),
            DiagKind::MalformedString => String::from_str(
                "malformed string: missing closing double quote",
            ),
            DiagKind::MalformedBlob => String::from_str(
                "malformed blob: expected %[v1,v2,...] with <u8> values",
            ),
            DiagKind::MalformedTimeTag => String::from_str(
                "malformed time tag: expected @seconds.fractional",
            ),
            DiagKind::MalformedChar => String::from_str(
                "malformed char: expected one alphabetic character in single quotes",
            ),
            DiagKind::MalformedColor => String::from_str(
                "malformed color: expected # and eight hex digits",
            ),
            DiagKind::MalformedMidi => String::from_str(
                "malformed MIDI message: expected ~ and eight hex digits",
            ),
            DiagKind::MalformedSuffix => String::from_str("malformed numeric-suffix literal"),
            DiagKind::MalformedIdent => String::from_str(
                "Invalid message: The identity keyword only supports [true, false, Nil, Inf].",
            ),
        }
    }

    /// The expected-token label for this diagnostic.
    pub fn expected(&self) -> (r: String)
        ensures
            r@ == sp_expected(self.kind),
    {
        match self.kind {
            DiagKind::BlobNotU8 => String::from_str("Illegal"),
            DiagKind::BlobTooLarge => String::from_str("Blob"),
            DiagKind::BlobEmpty => String::from_str("Blob"),
            DiagKind::CharInvalid => String::from_str("Char"),
            DiagKind::MalformedString => String::from_str("StringLiteral"),
            DiagKind::MalformedTimeTag => String::from_str("TimeMsg"),
            DiagKind::MalformedChar => String::from_str("Char"),
            DiagKind::MalformedColor => String::from_str("Color"),
            DiagKind::MalformedMidi => String::from_str("MidiMessage"),
            DiagKind::MalformedBlob => String::from_str("Blob"),
            DiagKind::MalformedSuffix => String::from_str("IntLiteral"),
            DiagKind::MalformedIdent => String::from_str("Ident"),
        }
    }

    /// The four render-ready columns: range, offending slice, message,
    /// expected-token label.
    pub fn print_error(&self) -> (r: (String, String, String, String))
        ensures
            r.0@ == sp_range_str(self.start as int, self.end as int),
            r.1@ == self.text@,
            r.2@ == sp_message(self.kind),
            r.3@ == sp_expected(self.kind),
    {
        let mut range = String::from_str("(");
        push_dec(&mut range, self.start);
        range.append("..");
        push_dec(&mut range, self.end);
        range.append(")");
        (range, self.text.clone(), self.message(), self.expected())
    }
}

} // verus!
