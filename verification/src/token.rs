//! Lexical tokens and their mathematical model.
//!
//! `Token` is what the scanner hands out; `SpecToken` is the same shape
//! over `Seq<char>` and `Seq<u8>`, so that contracts can be stated over
//! the source text.  Float and double literals carry the literal's text:
//! the library stays within exact values, and the surrounding application
//! turns the text into the machine float it sends.

use vstd::prelude::*;

verus! {

/// An RGBA color argument, one byte per channel.
#[derive(Clone, Copy, Debug, PartialEq, Eq, Structural)]
pub struct Color {
    pub red: u8,
    pub green: u8,
    pub blue: u8,
    pub alpha: u8,
}

/// A four-byte MIDI message argument.
#[derive(Clone, Copy, Debug, PartialEq, Eq, Structural)]
pub struct MidiMsg {
    pub port: u8,
    pub status: u8,
    pub data1: u8,
    pub data2: u8,
}

/// An OSC time tag: whole seconds and a fractional part.
#[derive(Clone, Copy, Debug, PartialEq, Eq, Structural)]
pub struct TimeMsg {
    pub seconds: u32,
    pub fractional: u32,
}

/// One lexical token.  Exactly one `EOF` ends every scan.
///
/// `FloatLiteral` and `Double` hold the literal's signed text with the
/// type suffix stripped; `Illegal` holds a nested token describing what
/// was expected where the input could not be read.
#[derive(Debug, PartialEq)]
pub enum Token {
    Illegal(Box<Token>),
    EOF,
    Comma,
    LBracket,
    RBracket,
    Ident(String),
    OSCPath(String),
    StringLiteral(String),
    IntLiteral(i32),
    Long(i64),
    FloatLiteral(String),
    Double(String),
    BoolLiteral(bool),
    Char(char),
    TimeMsg(TimeMsg),
    MidiMessage(MidiMsg),
    Color(Color),
    Blob(Vec<u8>),
    Nil,
    Inf,
}

/// The mathematical shape of a `Token`, over sequences.
pub enum SpecToken {
    Illegal(Box<SpecToken>),
    EOF,
    Comma,
    LBracket,
    RBracket,
    Ident(Seq<char>),
    OSCPath(Seq<char>),
    StringLiteral(Seq<char>),
    IntLiteral(i32),
    Long(i64),
    FloatLiteral(Seq<char>),
    Double(Seq<char>),
    BoolLiteral(bool),
    Char(char),
    TimeMsg(TimeMsg),
    MidiMessage(MidiMsg),
    Color(Color),
    Blob(Seq<u8>),
    Nil,
    Inf,
}

/// The model of one token.
pub open spec fn token_dv(t: Token) -> SpecToken
    decreases t,
{
    match t {
        Token::Illegal(b) => SpecToken::Illegal(Box::new(token_dv(*b))),
        Token::EOF => SpecToken::EOF,
        Token::Comma => SpecToken::Comma,
        Token::LBracket => SpecToken::LBracket,
        Token::RBracket => SpecToken::RBracket,
        Token::Ident(s) => SpecToken::Ident(s@),
        Token::OSCPath(s) => SpecToken::OSCPath(s@),
        Token::StringLiteral(s) => SpecToken::StringLiteral(s@),
        Token::IntLiteral(n) => SpecToken::IntLiteral(n),
        Token::Long(n) => SpecToken::Long(n),
        Token::FloatLiteral(s) => SpecToken::FloatLiteral(s@),
        Token::Double(s) => SpecToken::Double(s@),
        Token::BoolLiteral(b) => SpecToken::BoolLiteral(b),
        Token::Char(c) => SpecToken::Char(c),
        Token::TimeMsg(m) => SpecToken::TimeMsg(m),
        Token::MidiMessage(m) => SpecToken::MidiMessage(m),
        Token::Color(c) => SpecToken::Color(c),
        Token::Blob(v) => SpecToken::Blob(v@),
        Token::Nil => SpecToken::Nil,
        Token::Inf => SpecToken::Inf,
    }
}

impl DeepView for Token {
    type V = SpecToken;

    open spec fn deep_view(&self) -> SpecToken {
        token_dv(*self)
    }
}

/// The category name of a token, as the diagnostics render it.
pub open spec fn sp_label(t: SpecToken) -> Seq<char> {
    match t {
        SpecToken::Illegal(_) => "Illegal"@,
        SpecToken::EOF => "EOF"@,
        SpecToken::Comma => "Comma"@,
        SpecToken::LBracket => "LBracket"@,
        SpecToken::RBracket => "RBracket"@,
        SpecToken::Ident(_) => "Ident"@,
        SpecToken::OSCPath(_) => "OSCPath"@,
        SpecToken::StringLiteral(_) => "StringLiteral"@,
        SpecToken::IntLiteral(_) => "IntLiteral"@,
        SpecToken::Long(_) => "Long"@,
        SpecToken::FloatLiteral(_) => "FloatLiteral"@,
        SpecToken::Double(_) => "Double"@,
        SpecToken::BoolLiteral(_) => "BoolLiteral"@,
        SpecToken::Char(_) => "Char"@,
        SpecToken::TimeMsg(_) => "TimeMsg"@,
        SpecToken::MidiMessage(_) => "MidiMessage"@,
        SpecToken::Color(_) => "Color"@,
        SpecToken::Blob(_) => "Blob"@,
        SpecToken::Nil => "Nil"@,
        SpecToken::Inf => "Inf"@,
    }
}

impl Token {
    /// The category name of this token, such as `"Blob"` or `"Illegal"`.
    pub fn label(&self) -> (r: String)
        ensures
            r@ == sp_label(self.deep_view()),
    {
        match self {
            Token::Illegal(_) => String::from_str("Illegal"),
            Token::EOF => String::from_str("EOF"),
            Token::Comma => String::from_str("Comma"),
            Token::LBracket => String::from_str("LBracket"),
            Token::RBracket => String::from_str("RBracket"),
            Token::Ident(_) => String::from_str("Ident"),
            Token::OSCPath(_) => String::from_str("OSCPath"),
            Token::StringLiteral(_) => String::from_str("StringLiteral"),
            Token::IntLiteral(_) => String::from_str("IntLiteral"),
            Token::Long(_) => String::from_str("Long"),
            Token::FloatLiteral(_) => String::from_str("FloatLiteral"),
            Token::Double(_) => String::from_str("Double"),
            Token::BoolLiteral(_) => String::from_str("BoolLiteral"),
            Token::Char(_) => String::from_str("Char"),
            Token::TimeMsg(_) => String::from_str("TimeMsg"),
            Token::MidiMessage(_) => String::from_str("MidiMessage"),
            Token::Color(_) => String::from_str("Color"),
            Token::Blob(_) => String::from_str("Blob"),
            Token::Nil => String::from_str("Nil"),
            Token::Inf => String::from_str("Inf"),
        }
    }
}

} // verus!
