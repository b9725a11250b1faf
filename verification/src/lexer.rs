//! The fault-tolerant scanner: one line of text in, a token sequence
//! plus a diagnostic list out.  Scanning never fails: a slice that no
//! recognizer accepts is consumed up to the next line break as one
//! `Illegal` token with one classified diagnostic, and every scan ends
//! in exactly one `EOF` token.
//!
//! The whole scanner is specified first as a mathematical model over
//! `Seq<char>` (`sp_scan` and the `sp_lex_*` recognizers, tried in a
//! fixed order, first match wins); the executable functions are proved
//! to return exactly what the model says.

use vstd::prelude::*;

use crate::diag::{DiagKind, Error, SpecDiag};
use crate::text::{
    capped_u32, ch_digit_val, ch_hex_digit_val, ch_is_addr_char, ch_is_digit, ch_is_hex_digit,
    ch_is_ws, char_is_alphabetic, char_is_alphanumeric, dec_val, digit_val, hex_digit_val,
    is_addr_char, is_alnum, is_alpha, is_digit, is_hex_digit, is_ws, lemma_dec_val_nonneg,
    strip_underscores,
};
use crate::token::{Color, MidiMsg, SpecToken, TimeMsg, Token};

verus! {

// ---------------------------------------------------------------
// Character runs
// ---------------------------------------------------------------

/// First position at or after `i` that does not hold whitespace.
pub open spec fn sp_skip_ws(s: Seq<char>, i: int) -> int
    decreases s.len() - i,
{
    if 0 <= i < s.len() && is_ws(s[i]) {
        sp_skip_ws(s, i + 1)
    } else {
        i
    }
}

/// End of the digit run starting at `i`.
pub open spec fn sp_digits_end(s: Seq<char>, i: int) -> int
    decreases s.len() - i,
{
    if 0 <= i < s.len() && is_digit(s[i]) {
        sp_digits_end(s, i + 1)
    } else {
        i
    }
}

/// End of the digit-or-underscore run starting at `i`.
pub open spec fn sp_uds_end(s: Seq<char>, i: int) -> int
    decreases s.len() - i,
{
    if 0 <= i < s.len() && (is_digit(s[i]) || s[i] == '_') {
        sp_uds_end(s, i + 1)
    } else {
        i
    }
}

/// End of the alphanumeric run starting at `i`.
pub open spec fn sp_alnum_end(s: Seq<char>, i: int) -> int
    decreases s.len() - i,
{
    if 0 <= i < s.len() && is_alnum(s[i]) {
        sp_alnum_end(s, i + 1)
    } else {
        i
    }
}

/// End of the address-character run starting at `i`.
pub open spec fn sp_addr_end(s: Seq<char>, i: int) -> int
    decreases s.len() - i,
{
    if 0 <= i < s.len() && is_addr_char(s[i]) {
        sp_addr_end(s, i + 1)
    } else {
        i
    }
}

/// First position at or after `i` holding a line break, or the end.
pub open spec fn sp_line_end(s: Seq<char>, i: int) -> int
    decreases s.len() - i,
{
    if 0 <= i < s.len() && s[i] != '\n' {
        sp_line_end(s, i + 1)
    } else {
        i
    }
}

/// First position at or after `i` holding a double quote, or the end.
pub open spec fn sp_quote_end(s: Seq<char>, i: int) -> int
    decreases s.len() - i,
{
    if 0 <= i < s.len() && s[i] != '"' {
        sp_quote_end(s, i + 1)
    } else {
        i
    }
}

// ---------------------------------------------------------------
// Model of one recognizer attempt
// ---------------------------------------------------------------

/// What one recognizer attempt yields: the token and the position after
/// it on a match, plus the diagnostics the attempt emitted (a failed
/// attempt may still emit some, exactly as the scanner does).
pub struct SpecLex {
    pub tok: Option<(SpecToken, int)>,
    pub errs: Seq<SpecDiag>,
}

/// A clean match.
pub open spec fn lexed(t: SpecToken, end: int) -> SpecLex {
    SpecLex { tok: Some((t, end)), errs: Seq::empty() }
}

/// A clean failure.
pub open spec fn nolex() -> SpecLex {
    SpecLex { tok: None, errs: Seq::empty() }
}

/// One diagnostic record.
pub open spec fn sp_diag(kind: DiagKind, start: int, end: int, text: Seq<char>) -> SpecDiag {
    SpecDiag { start, end, text, kind }
}

// ---------------------------------------------------------------
// The recognizers, in priority order
// ---------------------------------------------------------------

/// An OSC address: a slash, then any run of alphanumeric or ASCII
/// punctuation characters, accepted as opaque pattern text.
pub open spec fn sp_lex_osc_path(s: Seq<char>, i: int) -> SpecLex {
    if 0 <= i < s.len() && s[i] == '/' {
        lexed(SpecToken::OSCPath(s.subrange(i, sp_addr_end(s, i + 1))), sp_addr_end(s, i + 1))
    } else {
        nolex()
    }
}

/// A comma or a square bracket.
pub open spec fn sp_lex_punctuations(s: Seq<char>, i: int) -> SpecLex {
    if 0 <= i < s.len() && s[i] == ',' {
        lexed(SpecToken::Comma, i + 1)
    } else if 0 <= i < s.len() && s[i] == '[' {
        lexed(SpecToken::LBracket, i + 1)
    } else if 0 <= i < s.len() && s[i] == ']' {
        lexed(SpecToken::RBracket, i + 1)
    } else {
        nolex()
    }
}

/// A double-quoted string; fails when the closing quote is missing.
pub open spec fn sp_lex_string(s: Seq<char>, i: int) -> SpecLex {
    if 0 <= i < s.len() && s[i] == '"' {
        if sp_quote_end(s, i + 1) < s.len() {
            lexed(
                SpecToken::StringLiteral(s.subrange(i + 1, sp_quote_end(s, i + 1))),
                sp_quote_end(s, i + 1) + 1,
            )
        } else {
            nolex()
        }
    } else {
        nolex()
    }
}

/// What scanning the comma-separated blob elements yields.
pub struct SpecBlobElems {
    pub list: Option<(Seq<u8>, int)>,
    pub errs: Seq<SpecDiag>,
}

/// The comma-separated elements of a blob, from position `i` up to the
/// closing bracket.  Each element is validated on its own: a digit run
/// past one byte gets a diagnostic and is dropped; an element that is
/// not a digit run gets a diagnostic, and the whole attempt fails
/// unless the list closes right there.
pub open spec fn sp_blob_elems(s: Seq<char>, i: int) -> SpecBlobElems
    decreases s.len() - i,
{
    let e = sp_digits_end(s, i);
    if !(i <= e <= s.len()) {
        SpecBlobElems { list: None, errs: Seq::empty() }
    } else {
        let vals = if e > i && dec_val(s.subrange(i, e)) <= 255 {
            seq![dec_val(s.subrange(i, e)) as u8]
        } else {
            Seq::<u8>::empty()
        };
        let ds = if e == i {
            seq![sp_diag(DiagKind::BlobNotU8, i, s.len() as int, s.subrange(i, s.len() as int))]
        } else if dec_val(s.subrange(i, e)) > 255 {
            seq![sp_diag(DiagKind::BlobTooLarge, i, e, s.subrange(i, e))]
        } else {
            Seq::<SpecDiag>::empty()
        };
        if e < s.len() && s[e] == ',' {
            let rest = sp_blob_elems(s, e + 1);
            SpecBlobElems {
                list: match rest.list {
                    Some((vs, end)) => Some((vals + vs, end)),
                    None => None,
                },
                errs: ds + rest.errs,
            }
        } else if e < s.len() && s[e] == ']' {
            SpecBlobElems { list: Some((vals, e + 1)), errs: ds }
        } else {
            SpecBlobElems { list: None, errs: ds }
        }
    }
}

/// A blob literal `%[v1,v2,...]`.  A blob whose element list comes out
/// empty degrades to an `Illegal` token with one more diagnostic.
pub open spec fn sp_lex_blob(s: Seq<char>, i: int) -> SpecLex {
    if i + 2 <= s.len() && 0 <= i && s[i] == '%' && s[i + 1] == '[' {
        let el = sp_blob_elems(s, i + 2);
        match el.list {
            Some((vals, end)) => {
                if vals.len() == 0 {
                    SpecLex {
                        tok: Some(
                            (SpecToken::Illegal(Box::new(SpecToken::Blob(Seq::empty()))), end),
                        ),
                        errs: el.errs + seq![
                            sp_diag(
                                DiagKind::BlobEmpty,
                                i,
                                s.len() as int,
                                s.subrange(i, s.len() as int),
                            ),
                        ],
                    }
                } else {
                    SpecLex { tok: Some((SpecToken::Blob(vals), end)), errs: el.errs }
                }
            },
            None => SpecLex { tok: None, errs: el.errs },
        }
    } else {
        nolex()
    }
}

/// A time tag `@seconds.fractional`: digit runs that may hold
/// underscores as visual separators; the fractional part may be empty;
/// an unreadable or oversized part silently reads as 0.
pub open spec fn sp_lex_timemsg(s: Seq<char>, i: int) -> SpecLex {
    if 0 <= i < s.len() && s[i] == '@' {
        let p1 = sp_uds_end(s, i + 1);
        if p1 < s.len() && s[p1] == '.' {
            let p2 = sp_uds_end(s, p1 + 1);
            lexed(
                SpecToken::TimeMsg(
                    TimeMsg {
                        seconds: capped_u32(s.subrange(i + 1, p1)),
                        fractional: capped_u32(s.subrange(p1 + 1, p2)),
                    },
                ),
                p2,
            )
        } else {
            nolex()
        }
    } else {
        nolex()
    }
}

/// Eight hexadecimal digits start at `i`.
pub open spec fn sp_hex8_ok(s: Seq<char>, i: int) -> bool {
    &&& 0 <= i
    &&& i + 8 <= s.len()
    &&& is_hex_digit(s[i])
    &&& is_hex_digit(s[i + 1])
    &&& is_hex_digit(s[i + 2])
    &&& is_hex_digit(s[i + 3])
    &&& is_hex_digit(s[i + 4])
    &&& is_hex_digit(s[i + 5])
    &&& is_hex_digit(s[i + 6])
    &&& is_hex_digit(s[i + 7])
}

/// The byte two hexadecimal digits at `i` denote.
pub open spec fn sp_hex_byte(s: Seq<char>, i: int) -> u8 {
    (hex_digit_val(s[i]) * 16 + hex_digit_val(s[i + 1])) as u8
}

/// A MIDI message `~` followed by eight hex digits: four bytes.
pub open spec fn sp_lex_midimsg(s: Seq<char>, i: int) -> SpecLex {
    if 0 <= i < s.len() && s[i] == '~' && sp_hex8_ok(s, i + 1) {
        lexed(
            SpecToken::MidiMessage(
                MidiMsg {
                    port: sp_hex_byte(s, i + 1),
                    status: sp_hex_byte(s, i + 3),
                    data1: sp_hex_byte(s, i + 5),
                    data2: sp_hex_byte(s, i + 7),
                },
            ),
            i + 9,
        )
    } else {
        nolex()
    }
}

/// A color `#` followed by eight hex digits: four channel bytes.
pub open spec fn sp_lex_color(s: Seq<char>, i: int) -> SpecLex {
    if 0 <= i < s.len() && s[i] == '#' && sp_hex8_ok(s, i + 1) {
        lexed(
            SpecToken::Color(
                Color {
                    red: sp_hex_byte(s, i + 1),
                    green: sp_hex_byte(s, i + 3),
                    blue: sp_hex_byte(s, i + 5),
                    alpha: sp_hex_byte(s, i + 7),
                },
            ),
            i + 9,
        )
    } else {
        nolex()
    }
}

/// Position after an optional `+` or `-` sign at `i`.
pub open spec fn sp_after_sign(s: Seq<char>, i: int) -> int {
    if 0 <= i < s.len() && (s[i] == '+' || s[i] == '-') {
        i + 1
    } else {
        i
    }
}

/// The sign at `i` is a minus.
pub open spec fn sp_neg_sign(s: Seq<char>, i: int) -> bool {
    0 <= i < s.len() && s[i] == '-'
}

/// The four characters at `i` are exactly `a b c d`.
pub open spec fn sp_is4(s: Seq<char>, i: int, a: char, b: char, c: char, d: char) -> bool {
    0 <= i && i + 4 <= s.len() && s[i] == a && s[i + 1] == b && s[i + 2] == c && s[i + 3] == d
}

/// A long literal: optional sign, digits, mandatory `_i64` suffix.
/// Digits past `i64::MAX` do not lex.
pub open spec fn sp_lex_long_integer(s: Seq<char>, i: int) -> SpecLex {
    let k = sp_after_sign(s, i);
    let d = sp_digits_end(s, k);
    if d > k && sp_is4(s, d, '_', 'i', '6', '4') && dec_val(s.subrange(k, d)) <= i64::MAX {
        let v = dec_val(s.subrange(k, d));
        lexed(SpecToken::Long(if sp_neg_sign(s, i) { (-v) as i64 } else { v as i64 }), d + 4)
    } else {
        nolex()
    }
}

/// End of a numeric body at `k`: digits with an optional dot and more
/// digits, or a dot with digits.  `None` when no number starts here.
pub open spec fn sp_num_body_end(s: Seq<char>, k: int) -> Option<int> {
    let d1 = sp_digits_end(s, k);
    if d1 > k {
        if d1 < s.len() && s[d1] == '.' {
            Some(sp_digits_end(s, d1 + 1))
        } else {
            Some(d1)
        }
    } else if 0 <= k < s.len() && s[k] == '.' && sp_digits_end(s, k + 1) > k + 1 {
        Some(sp_digits_end(s, k + 1))
    } else {
        None
    }
}

/// Like `sp_num_body_end`, but a dot is required: a dotless number is
/// an integer, never a float.
pub open spec fn sp_float_body_end(s: Seq<char>, k: int) -> Option<int> {
    let d1 = sp_digits_end(s, k);
    if d1 > k {
        if d1 < s.len() && s[d1] == '.' {
            Some(sp_digits_end(s, d1 + 1))
        } else {
            None
        }
    } else if 0 <= k < s.len() && s[k] == '.' && sp_digits_end(s, k + 1) > k + 1 {
        Some(sp_digits_end(s, k + 1))
    } else {
        None
    }
}

/// A double literal: optional sign, numeric body, mandatory `_f64`
/// suffix.  The token holds the signed body text, suffix stripped.
pub open spec fn sp_lex_double_float(s: Seq<char>, i: int) -> SpecLex {
    let k = sp_after_sign(s, i);
    match sp_num_body_end(s, k) {
        Some(b) => {
            if sp_is4(s, b, '_', 'f', '6', '4') {
                lexed(SpecToken::Double(s.subrange(i, b)), b + 4)
            } else {
                nolex()
            }
        },
        None => nolex(),
    }
}

/// A float literal: optional sign, numeric body holding a dot, optional
/// `_f32` suffix.  The token holds the signed body text, suffix stripped.
pub open spec fn sp_lex_float(s: Seq<char>, i: int) -> SpecLex {
    let k = sp_after_sign(s, i);
    match sp_float_body_end(s, k) {
        Some(b) => {
            if sp_is4(s, b, '_', 'f', '3', '2') {
                lexed(SpecToken::FloatLiteral(s.subrange(i, b)), b + 4)
            } else {
                lexed(SpecToken::FloatLiteral(s.subrange(i, b)), b)
            }
        },
        None => nolex(),
    }
}

/// An integer literal: optional sign, digits, optional `_i32` suffix.
/// Digits past `i32::MAX` do not lex.
pub open spec fn sp_lex_integer(s: Seq<char>, i: int) -> SpecLex {
    let k = sp_after_sign(s, i);
    let d = sp_digits_end(s, k);
    if d > k && dec_val(s.subrange(k, d)) <= i32::MAX {
        let v = dec_val(s.subrange(k, d));
        let t = SpecToken::IntLiteral(if sp_neg_sign(s, i) { (-v) as i32 } else { v as i32 });
        if sp_is4(s, d, '_', 'i', '3', '2') {
            lexed(t, d + 4)
        } else {
            lexed(t, d)
        }
    } else {
        nolex()
    }
}

/// A reserved bare word, matched exactly: `true`, `false`, `Nil`, `Inf`.
/// Any other alphanumeric run is no token at all and falls through to
/// the catch-all.
pub open spec fn sp_lex_reserved_ident(s: Seq<char>, i: int) -> SpecLex {
    let e = sp_alnum_end(s, i);
    if 0 <= i && e > i {
        let w = s.subrange(i, e);
        if w == "true"@ {
            lexed(SpecToken::BoolLiteral(true), e)
        } else if w == "false"@ {
            lexed(SpecToken::BoolLiteral(false), e)
        } else if w == "Nil"@ {
            lexed(SpecToken::Nil, e)
        } else if w == "Inf"@ {
            lexed(SpecToken::Inf, e)
        } else {
            nolex()
        }
    } else {
        nolex()
    }
}

/// A char literal `'x'`.  A non-alphabetic character is its own
/// diagnostic and the token degrades to `Char('\0')`; a missing closing
/// quote fails the attempt (the diagnostic, if any, stays).
pub open spec fn sp_lex_char(s: Seq<char>, i: int) -> SpecLex {
    if 0 <= i && i + 1 < s.len() && s[i] == '\'' {
        let c = s[i + 1];
        let ds = if !is_alpha(c) {
            seq![
                sp_diag(DiagKind::CharInvalid, i, s.len() as int, s.subrange(i, s.len() as int)),
            ]
        } else {
            Seq::<SpecDiag>::empty()
        };
        if i + 2 < s.len() && s[i + 2] == '\'' {
            SpecLex {
                tok: Some((SpecToken::Char(if is_alpha(c) { c } else { '\0' }), i + 3)),
                errs: ds,
            }
        } else {
            SpecLex { tok: None, errs: ds }
        }
    } else {
        nolex()
    }
}

/// The catch-all's classification of an unreadable slice, by its first
/// character.
pub open spec fn sp_classify(c: char) -> DiagKind {
    if c == '"' {
        DiagKind::MalformedString
    } else if c == '%' {
        DiagKind::MalformedBlob
    } else if c == '@' {
        DiagKind::MalformedTimeTag
    } else if c == '\'' {
        DiagKind::MalformedChar
    } else if c == '#' {
        DiagKind::MalformedColor
    } else if c == '~' {
        DiagKind::MalformedMidi
    } else if c == '_' {
        DiagKind::MalformedSuffix
    } else {
        DiagKind::MalformedIdent
    }
}

/// The nested token an `Illegal` token carries: what was expected of
/// the unreadable slice.
pub open spec fn sp_expected_token(k: DiagKind, text: Seq<char>) -> SpecToken {
    match k {
        DiagKind::MalformedString => SpecToken::StringLiteral(Seq::empty()),
        DiagKind::MalformedBlob => SpecToken::Blob(Seq::empty()),
        DiagKind::MalformedTimeTag => SpecToken::TimeMsg(TimeMsg { seconds: 0, fractional: 0 }),
        DiagKind::MalformedChar => SpecToken::Char('\0'),
        DiagKind::MalformedColor => SpecToken::Color(
            Color { red: 0, green: 0, blue: 0, alpha: 0 },
        ),
        DiagKind::MalformedMidi => SpecToken::MidiMessage(
            MidiMsg { port: 0, status: 0, data1: 0, data2: 0 },
        ),
        DiagKind::MalformedSuffix => SpecToken::IntLiteral(0),
        _ => SpecToken::Ident(text),
    }
}

/// The catch-all: consumes up to the next line break (or the end) as
/// one `Illegal` token with one classified diagnostic.
pub open spec fn sp_lex_error(s: Seq<char>, i: int) -> SpecLex {
    if 0 <= i < s.len() {
        let e = sp_line_end(s, i);
        let k = sp_classify(s[i]);
        SpecLex {
            tok: Some((SpecToken::Illegal(Box::new(sp_expected_token(k, s.subrange(i, e)))), e)),
            errs: seq![sp_diag(k, i, e, s.subrange(i, e))],
        }
    } else {
        nolex()
    }
}

// ---------------------------------------------------------------
// The driver
// ---------------------------------------------------------------

/// One token from position `i`: the recognizers are tried in a fixed
/// order and the first match wins.  Diagnostics of failed blob and char
/// attempts are kept, exactly as the scanner's shared accumulator keeps
/// them.
pub open spec fn sp_lex_token(s: Seq<char>, i: int) -> SpecLex {
    let r1 = sp_lex_osc_path(s, i);
    if r1.tok is Some {
        r1
    } else {
        let r2 = sp_lex_punctuations(s, i);
        if r2.tok is Some {
            r2
        } else {
            let r3 = sp_lex_string(s, i);
            if r3.tok is Some {
                r3
            } else {
                let r4 = sp_lex_blob(s, i);
                if r4.tok is Some {
                    r4
                } else {
                    let more = sp_lex_token_tail(s, i);
                    SpecLex { tok: more.tok, errs: r4.errs + more.errs }
                }
            }
        }
    }
}

/// The recognizers after the blob attempt, in order.
pub open spec fn sp_lex_token_tail(s: Seq<char>, i: int) -> SpecLex {
    let r5 = sp_lex_timemsg(s, i);
    if r5.tok is Some {
        r5
    } else {
        let r6 = sp_lex_midimsg(s, i);
        if r6.tok is Some {
            r6
        } else {
            let r7 = sp_lex_color(s, i);
            if r7.tok is Some {
                r7
            } else {
                let r8 = sp_lex_long_integer(s, i);
                if r8.tok is Some {
                    r8
                } else {
                    let r9 = sp_lex_double_float(s, i);
                    if r9.tok is Some {
                        r9
                    } else {
                        let r10 = sp_lex_float(s, i);
                        if r10.tok is Some {
                            r10
                        } else {
                            let r11 = sp_lex_integer(s, i);
                            if r11.tok is Some {
                                r11
                            } else {
                                let r12 = sp_lex_reserved_ident(s, i);
                                if r12.tok is Some {
                                    r12
                                } else {
                                    let r13 = sp_lex_char(s, i);
                                    if r13.tok is Some {
                                        r13
                                    } else {
                                        let r14 = sp_lex_error(s, i);
                                        SpecLex {
                                            tok: r14.tok,
                                            errs: r13.errs + r14.errs,
                                        }
                                    }
                                }
                            }
                        }
                    }
                }
            }
        }
    }
}

/// What a whole scan yields.
pub struct SpecScan {
    pub toks: Seq<SpecToken>,
    pub errs: Seq<SpecDiag>,
}

/// The scan from position `i`: skip whitespace, stop with `EOF` at the
/// end, otherwise take one token and continue after it.
pub open spec fn sp_scan(s: Seq<char>, i: int) -> SpecScan
    decreases s.len() - i,
{
    let j = sp_skip_ws(s, i);
    if !(i <= j < s.len()) {
        SpecScan { toks: seq![SpecToken::EOF], errs: Seq::empty() }
    } else {
        let m = sp_lex_token(s, j);
        match m.tok {
            Some((t, k)) => {
                if j < k <= s.len() {
                    let rest = sp_scan(s, k);
                    SpecScan { toks: seq![t] + rest.toks, errs: m.errs + rest.errs }
                } else {
                    SpecScan { toks: seq![t, SpecToken::EOF], errs: m.errs }
                }
            },
            None => SpecScan { toks: seq![SpecToken::EOF], errs: m.errs },
        }
    }
}

// ---------------------------------------------------------------
// Executable character runs
// ---------------------------------------------------------------

/// Skips whitespace from `i`.
pub fn skip_ws(s: &str, i: usize) -> (r: usize)
    requires
        i <= s@.len(),
    ensures
        r == sp_skip_ws(s@, i as int),
        i <= r <= s@.len(),
        r < s@.len() ==> !is_ws(s@[r as int]),
{
    let n = s.unicode_len();
    let mut k = i;
    while k < n && ch_is_ws(s.get_char(k))
        invariant
            i <= k <= n,
            n == s@.len(),
            sp_skip_ws(s@, i as int) == sp_skip_ws(s@, k as int),
        decreases n - k,
    {
        k = k + 1;
    }
    k
}

/// End of the digit run from `i`.
pub fn run_digits(s: &str, i: usize) -> (r: usize)
    requires
        i <= s@.len(),
    ensures
        r == sp_digits_end(s@, i as int),
        i <= r <= s@.len(),
{
    let n = s.unicode_len();
    let mut k = i;
    while k < n && ch_is_digit(s.get_char(k))
        invariant
            i <= k <= n,
            n == s@.len(),
            sp_digits_end(s@, i as int) == sp_digits_end(s@, k as int),
        decreases n - k,
    {
        k = k + 1;
    }
    k
}

/// End of the digit-or-underscore run from `i`.
pub fn run_uds(s: &str, i: usize) -> (r: usize)
    requires
        i <= s@.len(),
    ensures
        r == sp_uds_end(s@, i as int),
        i <= r <= s@.len(),
{
    let n = s.unicode_len();
    let mut k = i;
    while k < n && (ch_is_digit(s.get_char(k)) || s.get_char(k) == '_')
        invariant
            i <= k <= n,
            n == s@.len(),
            sp_uds_end(s@, i as int) == sp_uds_end(s@, k as int),
        decreases n - k,
    {
        k = k + 1;
    }
    k
}

/// End of the alphanumeric run from `i`.
pub fn run_alnum(s: &str, i: usize) -> (r: usize)
    requires
        i <= s@.len(),
    ensures
        r == sp_alnum_end(s@, i as int),
        i <= r <= s@.len(),
{
    let n = s.unicode_len();
    let mut k = i;
    while k < n && char_is_alphanumeric(s.get_char(k))
        invariant
            i <= k <= n,
            n == s@.len(),
            sp_alnum_end(s@, i as int) == sp_alnum_end(s@, k as int),
        decreases n - k,
    {
        k = k + 1;
    }
    k
}

/// End of the address-character run from `i`.
pub fn run_addr(s: &str, i: usize) -> (r: usize)
    requires
        i <= s@.len(),
    ensures
        r == sp_addr_end(s@, i as int),
        i <= r <= s@.len(),
{
    let n = s.unicode_len();
    let mut k = i;
    while k < n && ch_is_addr_char(s.get_char(k))
        invariant
            i <= k <= n,
            n == s@.len(),
            sp_addr_end(s@, i as int) == sp_addr_end(s@, k as int),
        decreases n - k,
    {
        k = k + 1;
    }
    k
}

/// First line break at or after `i`, or the end.
pub fn run_line(s: &str, i: usize) -> (r: usize)
    requires
        i <= s@.len(),
    ensures
        r == sp_line_end(s@, i as int),
        i <= r <= s@.len(),
{
    let n = s.unicode_len();
    let mut k = i;
    while k < n && s.get_char(k) != '\n'
        invariant
            i <= k <= n,
            n == s@.len(),
            sp_line_end(s@, i as int) == sp_line_end(s@, k as int),
        decreases n - k,
    {
        k = k + 1;
    }
    k
}

// ---------------------------------------------------------------
// Executable recognizers
// ---------------------------------------------------------------

/// How an executable recognizer relates to its model: same match or
/// failure, same token (by view), same end position, which always lies
/// past `i` and within the text.
pub open spec fn lex_result_ok(r: Option<(Token, usize)>, m: SpecLex, i: int, s: Seq<char>) -> bool {
    match m.tok {
        Some((st, se)) => r matches Some(p) && p.0.deep_view() == st && p.1 as int == se && i < se
            <= s.len(),
        None => r is None,
    }
}

/// Every character of a digit run is a digit.
proof fn lemma_digits_range(s: Seq<char>, i: int)
    requires
        0 <= i,
    ensures
        forall|m: int| i <= m < sp_digits_end(s, i) ==> is_digit(#[trigger] s[m]),
        i <= sp_digits_end(s, i),
    decreases s.len() - i,
{
    if i < s.len() && is_digit(s[i]) {
        lemma_digits_range(s, i + 1);
    }
}

/// Every character of a digit-or-underscore run is a digit or an
/// underscore.
proof fn lemma_uds_range(s: Seq<char>, i: int)
    requires
        0 <= i,
    ensures
        forall|m: int|
            i <= m < sp_uds_end(s, i) ==> is_digit(#[trigger] s[m]) || s[m] == '_',
        i <= sp_uds_end(s, i),
    decreases s.len() - i,
{
    if i < s.len() && (is_digit(s[i]) || s[i] == '_') {
        lemma_uds_range(s, i + 1);
    }
}

/// Recognizes an OSC address starting at `i`.
pub fn lex_osc_path(s: &str, i: usize) -> (r: Option<(Token, usize)>)
    requires
        i <= s@.len(),
    ensures
        lex_result_ok(r, sp_lex_osc_path(s@, i as int), i as int, s@),
{
    let n = s.unicode_len();
    if i < n && s.get_char(i) == '/' {
        let e = run_addr(s, i + 1);
        let text = String::from_str(s.substring_char(i, e));
        Some((Token::OSCPath(text), e))
    } else {
        None
    }
}

/// Recognizes a comma or a square bracket at `i`.
pub fn lex_punctuations(s: &str, i: usize) -> (r: Option<(Token, usize)>)
    requires
        i <= s@.len(),
    ensures
        lex_result_ok(r, sp_lex_punctuations(s@, i as int), i as int, s@),
{
    let n = s.unicode_len();
    if i < n {
        let c = s.get_char(i);
        if c == ',' {
            Some((Token::Comma, i + 1))
        } else if c == '[' {
            Some((Token::LBracket, i + 1))
        } else if c == ']' {
            Some((Token::RBracket, i + 1))
        } else {
            None
        }
    } else {
        None
    }
}

/// Recognizes a double-quoted string starting at `i`.
pub fn lex_string(s: &str, i: usize) -> (r: Option<(Token, usize)>)
    requires
        i <= s@.len(),
    ensures
        lex_result_ok(r, sp_lex_string(s@, i as int), i as int, s@),
{
    let n = s.unicode_len();
    if i < n && s.get_char(i) == '"' {
        let q = run_quote(s, i + 1);
        if q < n {
            let text = String::from_str(s.substring_char(i + 1, q));
            Some((Token::StringLiteral(text), q + 1))
        } else {
            None
        }
    } else {
        None
    }
}

/// Recognizes a time tag starting at `i`.
pub fn lex_timemsg(s: &str, i: usize) -> (r: Option<(Token, usize)>)
    requires
        i <= s@.len(),
    ensures
        lex_result_ok(r, sp_lex_timemsg(s@, i as int), i as int, s@),
{
    let n = s.unicode_len();
    if i < n && s.get_char(i) == '@' {
        let p1 = run_uds(s, i + 1);
        if p1 < n && s.get_char(p1) == '.' {
            let p2 = run_uds(s, p1 + 1);
            proof {
                lemma_uds_range(s@, i as int + 1);
                lemma_uds_range(s@, p1 as int + 1);
            }
            let seconds = uds_value(s, i + 1, p1);
            let fractional = uds_value(s, p1 + 1, p2);
            Some((Token::TimeMsg(crate::token::TimeMsg { seconds, fractional }), p2))
        } else {
            None
        }
    } else {
        None
    }
}

/// Recognizes a MIDI message starting at `i`.
pub fn lex_midimsg(s: &str, i: usize) -> (r: Option<(Token, usize)>)
    requires
        i <= s@.len(),
    ensures
        lex_result_ok(r, sp_lex_midimsg(s@, i as int), i as int, s@),
{
    let n = s.unicode_len();
    if i < n && s.get_char(i) == '~' && hex8_check(s, i + 1) {
        let port = hex_byte(s, i + 1);
        let status = hex_byte(s, i + 3);
        let data1 = hex_byte(s, i + 5);
        let data2 = hex_byte(s, i + 7);
        Some((Token::MidiMessage(crate::token::MidiMsg { port, status, data1, data2 }), i + 9))
    } else {
        None
    }
}

/// Recognizes a color starting at `i`.
pub fn lex_color(s: &str, i: usize) -> (r: Option<(Token, usize)>)
    requires
        i <= s@.len(),
    ensures
        lex_result_ok(r, sp_lex_color(s@, i as int), i as int, s@),
{
    let n = s.unicode_len();
    if i < n && s.get_char(i) == '#' && hex8_check(s, i + 1) {
        let red = hex_byte(s, i + 1);
        let green = hex_byte(s, i + 3);
        let blue = hex_byte(s, i + 5);
        let alpha = hex_byte(s, i + 7);
        Some((Token::Color(crate::token::Color { red, green, blue, alpha }), i + 9))
    } else {
        None
    }
}

/// Position after an optional sign, and whether it was a minus.
fn after_sign(s: &str, i: usize) -> (r: (usize, bool))
    requires
        i <= s@.len(),
    ensures
        r.0 as int == sp_after_sign(s@, i as int),
        r.1 == sp_neg_sign(s@, i as int),
        i <= r.0 <= s@.len(),
{
    let n = s.unicode_len();
    if i < n && (s.get_char(i) == '+' || s.get_char(i) == '-') {
        (i + 1, s.get_char(i) == '-')
    } else {
        (i, false)
    }
}

/// Recognizes a long literal (`_i64` suffix) starting at `i`.
pub fn lex_long_integer(s: &str, i: usize) -> (r: Option<(Token, usize)>)
    requires
        i <= s@.len(),
    ensures
        lex_result_ok(r, sp_lex_long_integer(s@, i as int), i as int, s@),
{
    let (k, neg) = after_sign(s, i);
    let d = run_digits(s, k);
    if d > k && match4(s, d, '_', 'i', '6', '4') {
        proof {
            lemma_digits_range(s@, k as int);
        }
        match dec_value_upto(s, k, d, 9223372036854775807u64) {
            Some(v) => {
                let val = if neg {
                    (-(v as i64))
                } else {
                    v as i64
                };
                Some((Token::Long(val), d + 4))
            },
            None => None,
        }
    } else {
        None
    }
}

/// End of a numeric body (digits, optional dot) at `k`.
fn num_body(s: &str, k: usize) -> (r: Option<usize>)
    requires
        k <= s@.len(),
    ensures
        match sp_num_body_end(s@, k as int) {
            Some(b) => r matches Some(rb) && rb as int == b && k < rb <= s@.len(),
            None => r is None,
        },
{
    let n = s.unicode_len();
    let d1 = run_digits(s, k);
    if d1 > k {
        if d1 < n && s.get_char(d1) == '.' {
            Some(run_digits(s, d1 + 1))
        } else {
            Some(d1)
        }
    } else if k < n && s.get_char(k) == '.' {
        let d2 = run_digits(s, k + 1);
        if d2 > k + 1 {
            Some(d2)
        } else {
            None
        }
    } else {
        None
    }
}

/// End of a float body (a dot is required) at `k`.
fn float_body(s: &str, k: usize) -> (r: Option<usize>)
    requires
        k <= s@.len(),
    ensures
        match sp_float_body_end(s@, k as int) {
            Some(b) => r matches Some(rb) && rb as int == b && k < rb <= s@.len(),
            None => r is None,
        },
{
    let n = s.unicode_len();
    let d1 = run_digits(s, k);
    if d1 > k {
        if d1 < n && s.get_char(d1) == '.' {
            Some(run_digits(s, d1 + 1))
        } else {
            None
        }
    } else if k < n && s.get_char(k) == '.' {
        let d2 = run_digits(s, k + 1);
        if d2 > k + 1 {
            Some(d2)
        } else {
            None
        }
    } else {
        None
    }
}

/// Recognizes a double literal (`_f64` suffix) starting at `i`.
pub fn lex_double_float(s: &str, i: usize) -> (r: Option<(Token, usize)>)
    requires
        i <= s@.len(),
    ensures
        lex_result_ok(r, sp_lex_double_float(s@, i as int), i as int, s@),
{
    let (k, _neg) = after_sign(s, i);
    match num_body(s, k) {
        Some(b) => {
            if match4(s, b, '_', 'f', '6', '4') {
                let text = String::from_str(s.substring_char(i, b));
                Some((Token::Double(text), b + 4))
            } else {
                None
            }
        },
        None => None,
    }
}

/// Recognizes a float literal (optional `_f32` suffix) starting at `i`.
pub fn lex_float(s: &str, i: usize) -> (r: Option<(Token, usize)>)
    requires
        i <= s@.len(),
    ensures
        lex_result_ok(r, sp_lex_float(s@, i as int), i as int, s@),
{
    let (k, _neg) = after_sign(s, i);
    match float_body(s, k) {
        Some(b) => {
            let text = String::from_str(s.substring_char(i, b));
            if match4(s, b, '_', 'f', '3', '2') {
                Some((Token::FloatLiteral(text), b + 4))
            } else {
                Some((Token::FloatLiteral(text), b))
            }
        },
        None => None,
    }
}

/// Recognizes an integer literal (optional `_i32` suffix) starting at `i`.
pub fn lex_integer(s: &str, i: usize) -> (r: Option<(Token, usize)>)
    requires
        i <= s@.len(),
    ensures
        lex_result_ok(r, sp_lex_integer(s@, i as int), i as int, s@),
{
    let (k, neg) = after_sign(s, i);
    let d = run_digits(s, k);
    if d > k {
        proof {
            lemma_digits_range(s@, k as int);
        }
        match dec_value_upto(s, k, d, 2147483647u64) {
            Some(v) => {
                let val = if neg {
                    (-(v as i32))
                } else {
                    v as i32
                };
                if match4(s, d, '_', 'i', '3', '2') {
                    Some((Token::IntLiteral(val), d + 4))
                } else {
                    Some((Token::IntLiteral(val), d))
                }
            },
            None => None,
        }
    } else {
        None
    }
}

/// Recognizes one of the reserved bare words at `i`.
pub fn lex_reserved_ident(s: &str, i: usize) -> (r: Option<(Token, usize)>)
    requires
        i <= s@.len(),
    ensures
        lex_result_ok(r, sp_lex_reserved_ident(s@, i as int), i as int, s@),
{
    let e = run_alnum(s, i);
    if e > i {
        let w = String::from_str(s.substring_char(i, e));
        if w == String::from_str("true") {
            Some((Token::BoolLiteral(true), e))
        } else if w == String::from_str("false") {
            Some((Token::BoolLiteral(false), e))
        } else if w == String::from_str("Nil") {
            Some((Token::Nil, e))
        } else if w == String::from_str("Inf") {
            Some((Token::Inf, e))
        } else {
            None
        }
    } else {
        None
    }
}

// ---------------------------------------------------------------
// Reading numbers out of runs
// ---------------------------------------------------------------

/// Growing a digit run on the right never shrinks its value.
proof fn lemma_dec_val_extend(s: Seq<char>, from: int, k: int, to: int)
    requires
        0 <= from <= k <= to <= s.len(),
        forall|m: int| from <= m < to ==> is_digit(#[trigger] s[m]),
    ensures
        dec_val(s.subrange(from, k)) <= dec_val(s.subrange(from, to)),
    decreases to - k,
{
    if k < to {
        let a = s.subrange(from, to);
        let b = s.subrange(from, to - 1);
        assert(a.drop_last() =~= b);
        assert(forall|m: int| 0 <= m < b.len() ==> is_digit(#[trigger] b[m]));
        lemma_dec_val_nonneg(b);
        assert(is_digit(a.last()));
        assert(dec_val(a) == dec_val(b) * 10 + digit_val(a.last()));
        lemma_dec_val_extend(s, from, k, to - 1);
    }
}

/// Stripping underscores distributes over a push.
proof fn lemma_strip_push(t: Seq<char>, c: char)
    ensures
        strip_underscores(t.push(c)) == if c == '_' {
            strip_underscores(t)
        } else {
            strip_underscores(t).push(c)
        },
{
    assert(t.push(c).drop_last() =~= t);
    assert(t.push(c).last() == c);
}

/// The strip of a digit-or-underscore run is a digit run.
proof fn lemma_strip_digits(t: Seq<char>)
    requires
        forall|m: int| 0 <= m < t.len() ==> is_digit(#[trigger] t[m]) || t[m] == '_',
    ensures
        forall|m: int|
            0 <= m < strip_underscores(t).len() ==> is_digit(#[trigger] strip_underscores(t)[m]),
    decreases t.len(),
{
    if t.len() > 0 {
        assert(forall|m: int|
            0 <= m < t.drop_last().len() ==> is_digit(#[trigger] t.drop_last()[m])
                || t.drop_last()[m] == '_');
        lemma_strip_digits(t.drop_last());
        assert(is_digit(t.last()) || t.last() == '_');
        let st = strip_underscores(t);
        let sd = strip_underscores(t.drop_last());
        if t.last() != '_' {
            assert(st == sd.push(t.last()));
            assert forall|m: int| 0 <= m < st.len() implies is_digit(#[trigger] st[m]) by {
                if m < sd.len() {
                    assert(st[m] == sd[m]);
                    assert(is_digit(sd[m]));
                } else {
                    assert(st[m] == t.last());
                }
            }
        } else {
            assert(st == sd);
            assert forall|m: int| 0 <= m < st.len() implies is_digit(#[trigger] st[m]) by {
                assert(st[m] == sd[m]);
                assert(is_digit(sd[m]));
            }
        }
    }
}

/// The value of the digit run `s[from..to]`, when it stays within
/// `limit`; `None` when it overflows it.
#[verifier::loop_isolation(false)]
fn dec_value_upto(s: &str, from: usize, to: usize, limit: u64) -> (r: Option<u64>)
    requires
        9 <= limit,
        from <= to <= s@.len(),
        forall|m: int| from <= m < to ==> is_digit(#[trigger] s@[m]),
    ensures
        match r {
            Some(v) => v as int == dec_val(s@.subrange(from as int, to as int)) && v <= limit,
            None => dec_val(s@.subrange(from as int, to as int)) > limit,
        },
{
    let ghost whole = s@.subrange(from as int, to as int);
    let mut acc: u64 = 0;
    let mut k = from;
    proof {
        assert(s@.subrange(from as int, from as int) =~= Seq::<char>::empty());
    }
    while k < to
        invariant
            from <= k <= to <= s@.len(),
            forall|m: int| from <= m < to ==> is_digit(#[trigger] s@[m]),
            acc as int == dec_val(s@.subrange(from as int, k as int)),
            acc <= limit,
            whole == s@.subrange(from as int, to as int),
        decreases to - k,
    {
        let c = s.get_char(k);
        let d = ch_digit_val(c);
        let ghost pre = s@.subrange(from as int, k as int);
        let ghost post = s@.subrange(from as int, k as int + 1);
        proof {
            assert(post =~= pre.push(s@[k as int]));
            assert(post.drop_last() =~= pre);
            assert(dec_val(post) == dec_val(pre) * 10 + digit_val(s@[k as int]));
        }
        if acc > (limit - d as u64) / 10 {
            proof {
                assert(acc * 10 + d > limit) by (nonlinear_arith)
                    requires
                        acc > (limit - d as u64) / 10,
                        d <= 9,
                        d as u64 <= limit,
                ;
                assert(dec_val(post) > limit);
                lemma_dec_val_extend(s@, from as int, k as int + 1, to as int);
            }
            return None;
        }
        proof {
            assert(acc * 10 + d <= limit) by (nonlinear_arith)
                requires
                    acc <= (limit - d as u64) / 10,
                    d <= 9,
                    d as u64 <= limit,
            ;
        }
        acc = acc * 10 + d as u64;
        k = k + 1;
    }
    proof {
        assert(s@.subrange(from as int, k as int) =~= whole);
    }
    Some(acc)
}

/// The `u32` reading of the digit-or-underscore run `s[from..to]`:
/// underscores are stripped, an empty or oversized reading is 0.
#[verifier::loop_isolation(false)]
fn uds_value(s: &str, from: usize, to: usize) -> (r: u32)
    requires
        from <= to <= s@.len(),
        forall|m: int| from <= m < to ==> is_digit(#[trigger] s@[m]) || s@[m] == '_',
    ensures
        r == capped_u32(s@.subrange(from as int, to as int)),
{
    let ghost whole = s@.subrange(from as int, to as int);
    let mut acc: u64 = 0;
    let mut over: bool = false;
    let mut k = from;
    proof {
        assert(s@.subrange(from as int, from as int) =~= Seq::<char>::empty());
    }
    while k < to
        invariant
            from <= k <= to <= s@.len(),
            forall|m: int| from <= m < to ==> is_digit(#[trigger] s@[m]) || s@[m] == '_',
            !over ==> acc as int == dec_val(strip_underscores(s@.subrange(from as int, k as int)))
                && acc <= u32::MAX,
            over ==> dec_val(strip_underscores(s@.subrange(from as int, k as int))) > u32::MAX,
            whole == s@.subrange(from as int, to as int),
        decreases to - k,
    {
        let c = s.get_char(k);
        let ghost pre = s@.subrange(from as int, k as int);
        let ghost post = s@.subrange(from as int, k as int + 1);
        proof {
            assert(post =~= pre.push(s@[k as int]));
            lemma_strip_push(pre, s@[k as int]);
            if s@[k as int] != '_' {
                assert(strip_underscores(post) == strip_underscores(pre).push(s@[k as int]));
                assert(strip_underscores(pre).push(s@[k as int]).drop_last() =~= strip_underscores(
                    pre,
                ));
            }
            assert(forall|m: int| 0 <= m < pre.len() ==> is_digit(#[trigger] pre[m])
                || pre[m] == '_');
            lemma_strip_digits(pre);
            lemma_dec_val_nonneg(strip_underscores(pre));
        }
        if c != '_' {
            let d = ch_digit_val(c);
            proof {
                assert(dec_val(strip_underscores(post)) == dec_val(strip_underscores(pre)) * 10
                    + digit_val(s@[k as int]));
            }
            if over {
                proof {
                    assert(dec_val(strip_underscores(post)) > u32::MAX) by (nonlinear_arith)
                        requires
                            dec_val(strip_underscores(post)) == dec_val(strip_underscores(pre))
                                * 10 + digit_val(s@[k as int]),
                            dec_val(strip_underscores(pre)) > u32::MAX,
                            digit_val(s@[k as int]) >= 0,
                    ;
                }
            } else if acc > (u32::MAX as u64 - d as u64) / 10 {
                over = true;
                proof {
                    assert(acc * 10 + d > u32::MAX) by (nonlinear_arith)
                        requires
                            acc > (u32::MAX as u64 - d as u64) / 10,
                            d <= 9,
                    ;
                }
            } else {
                proof {
                    assert(acc * 10 + d <= u32::MAX) by (nonlinear_arith)
                        requires
                            acc <= (u32::MAX as u64 - d as u64) / 10,
                            d <= 9,
                    ;
                }
                acc = acc * 10 + d as u64;
            }
        }
        k = k + 1;
    }
    proof {
        assert(s@.subrange(from as int, k as int) =~= whole);
    }
    if over {
        0
    } else {
        acc as u32
    }
}

/// The four characters at `i` are exactly `a b c d`.
fn match4(s: &str, i: usize, a: char, b: char, c: char, d: char) -> (r: bool)
    requires
        i <= s@.len(),
    ensures
        r == sp_is4(s@, i as int, a, b, c, d),
        r ==> i + 4 <= usize::MAX,
{
    let n = s.unicode_len();
    if n - i >= 4 {
        s.get_char(i) == a && s.get_char(i + 1) == b && s.get_char(i + 2) == c && s.get_char(
            i + 3,
        ) == d
    } else {
        false
    }
}

/// Eight hexadecimal digits start at `i`.
fn hex8_check(s: &str, i: usize) -> (r: bool)
    requires
        i <= s@.len(),
    ensures
        r == sp_hex8_ok(s@, i as int),
{
    let n = s.unicode_len();
    if n - i >= 8 {
        ch_is_hex_digit(s.get_char(i)) && ch_is_hex_digit(s.get_char(i + 1)) && ch_is_hex_digit(
            s.get_char(i + 2),
        ) && ch_is_hex_digit(s.get_char(i + 3)) && ch_is_hex_digit(s.get_char(i + 4))
            && ch_is_hex_digit(s.get_char(i + 5)) && ch_is_hex_digit(s.get_char(i + 6))
            && ch_is_hex_digit(s.get_char(i + 7))
    } else {
        false
    }
}

/// The byte the two hexadecimal digits at `i` denote.
fn hex_byte(s: &str, i: usize) -> (r: u8)
    requires
        i + 2 <= s@.len(),
        s@.len() <= usize::MAX,
        is_hex_digit(s@[i as int]),
        is_hex_digit(s@[i as int + 1]),
    ensures
        r == sp_hex_byte(s@, i as int),
{
    let h = ch_hex_digit_val(s.get_char(i));
    let l = ch_hex_digit_val(s.get_char(i + 1));
    (h * 16 + l) as u8
}

/// First double quote at or after `i`, or the end.
pub fn run_quote(s: &str, i: usize) -> (r: usize)
    requires
        i <= s@.len(),
    ensures
        r == sp_quote_end(s@, i as int),
        i <= r <= s@.len(),
{
    let n = s.unicode_len();
    let mut k = i;
    while k < n && s.get_char(k) != '"'
        invariant
            i <= k <= n,
            n == s@.len(),
            sp_quote_end(s@, i as int) == sp_quote_end(s@, k as int),
        decreases n - k,
    {
        k = k + 1;
    }
    k
}

// ---------------------------------------------------------------
// The erring recognizers, the catch-all, and the driver
// ---------------------------------------------------------------

/// A line run reaches at least its starting position.
proof fn lemma_line_end_lb(s: Seq<char>, i: int)
    requires
        0 <= i,
    ensures
        sp_line_end(s, i) >= i,
    decreases s.len() - i,
{
    if i < s.len() && s[i] != '\n' {
        lemma_line_end_lb(s, i + 1);
    }
}

/// Scans the comma-separated elements of a blob, pushing one
/// diagnostic per bad element.
fn lex_blob_elems(s: &str, i: usize, errors: &mut Vec<Error>) -> (r: Option<(Vec<u8>, usize)>)
    requires
        i <= s@.len(),
    ensures
        ({
            let m = sp_blob_elems(s@, i as int);
            &&& match m.list {
                Some((vs, e)) => r matches Some(p) && p.0@ == vs && p.1 as int == e && i < p.1
                    <= s@.len(),
                None => r is None,
            }
            &&& final(errors).deep_view() == old(errors).deep_view() + m.errs
        }),
    decreases s@.len() - i,
{
    let ghost m = sp_blob_elems(s@, i as int);
    let n = s.unicode_len();
    let e = run_digits(s, i);
    proof {
        lemma_digits_range(s@, i as int);
    }
    let mut vals: Vec<u8> = Vec::new();
    let ghost errs0 = errors.deep_view();
    let ghost ds = if e == i {
        seq![
            sp_diag(
                DiagKind::BlobNotU8,
                i as int,
                s@.len() as int,
                s@.subrange(i as int, s@.len() as int),
            ),
        ]
    } else if dec_val(s@.subrange(i as int, e as int)) > 255 {
        seq![
            sp_diag(
                DiagKind::BlobTooLarge,
                i as int,
                e as int,
                s@.subrange(i as int, e as int),
            ),
        ]
    } else {
        Seq::<SpecDiag>::empty()
    };
    if e == i {
        let text = String::from_str(s.substring_char(i, n));
        errors.push(Error::new(i, n, text, DiagKind::BlobNotU8));
        proof {
            crate::lemma_seq_dv_push(old(errors)@, errors@.last());
            assert(errors@.drop_last() =~= old(errors)@);
            assert(errors@ =~= old(errors)@.push(errors@.last()));
            assert(errors.deep_view() =~= errs0 + ds);
        }
    } else {
        match dec_value_upto(s, i, e, 255) {
            Some(v) => {
                vals.push(v as u8);
                proof {
                    assert(errors.deep_view() =~= errs0 + ds);
                }
            },
            None => {
                let text = String::from_str(s.substring_char(i, e));
                errors.push(Error::new(i, e, text, DiagKind::BlobTooLarge));
                proof {
                    assert(errors@ =~= old(errors)@.push(errors@.last()));
                    crate::lemma_seq_dv_push(old(errors)@, errors@.last());
                    assert(errors.deep_view() =~= errs0 + ds);
                }
            },
        }
    }
    proof {
        assert(vals@ =~= if e > i && dec_val(s@.subrange(i as int, e as int)) <= 255 {
            seq![dec_val(s@.subrange(i as int, e as int)) as u8]
        } else {
            Seq::<u8>::empty()
        });
    }
    if e < n && s.get_char(e) == ',' {
        let ghost errs1 = errors.deep_view();
        let rest = lex_blob_elems(s, e + 1, errors);
        proof {
            assert(final(errors).deep_view() =~= errs0 + (ds + sp_blob_elems(
                s@,
                e as int + 1,
            ).errs));
        }
        match rest {
            Some((mut vs, end)) => {
                if vals.len() > 0 {
                    let b = vals[0];
                    vs.insert(0, b);
                    proof {
                        assert(vs@ =~= vals@ + vs@.subrange(1, vs@.len() as int));
                    }
                }
                proof {
                    assert(m.list matches Some(p) && vs@ =~= p.0);
                }
                Some((vs, end))
            },
            None => None,
        }
    } else if e < n && s.get_char(e) == ']' {
        Some((vals, e + 1))
    } else {
        None
    }
}

/// Recognizes a blob literal starting at `i`.
pub fn lex_blob(s: &str, i: usize, errors: &mut Vec<Error>) -> (r: Option<(Token, usize)>)
    requires
        i <= s@.len(),
    ensures
        lex_result_ok(r, sp_lex_blob(s@, i as int), i as int, s@),
        final(errors).deep_view() == old(errors).deep_view() + sp_lex_blob(s@, i as int).errs,
{
    let n = s.unicode_len();
    if n - i >= 2 && s.get_char(i) == '%' && s.get_char(i + 1) == '[' {
        let ghost errs0 = errors.deep_view();
        let el = lex_blob_elems(s, i + 2, errors);
        match el {
            Some((vals, end)) => {
                if vals.len() == 0 {
                    let text = String::from_str(s.substring_char(i, n));
                    let ghost mid = errors@;
                    let ghost el_errs = sp_blob_elems(s@, i as int + 2).errs;
                    errors.push(Error::new(i, n, text, DiagKind::BlobEmpty));
                    proof {
                        assert(errors@ =~= mid.push(errors@.last()));
                        crate::lemma_seq_dv_push(mid, errors@.last());
                        assert(errors.deep_view() =~= (errs0 + el_errs) + seq![
                            sp_diag(
                                DiagKind::BlobEmpty,
                                i as int,
                                s@.len() as int,
                                s@.subrange(i as int, s@.len() as int),
                            ),
                        ]);
                        assert(errors.deep_view() =~= errs0 + sp_lex_blob(s@, i as int).errs);
                    }
                    let inner = Token::Blob(Vec::new());
                    proof {
                        assert(inner.deep_view() == SpecToken::Blob(Seq::<u8>::empty()));
                    }
                    let tok = Token::Illegal(Box::new(inner));
                    proof {
                        assert(tok.deep_view() == SpecToken::Illegal(
                            Box::new(SpecToken::Blob(Seq::empty())),
                        ));
                        assert(sp_lex_blob(s@, i as int).tok matches Some(p) && p.0
                            == tok.deep_view() && p.1 == end as int);
                    }
                    Some((tok, end))
                } else {
                    proof {
                        assert(errors.deep_view() =~= errs0 + sp_lex_blob(s@, i as int).errs);
                    }
                    Some((Token::Blob(vals), end))
                }
            },
            None => {
                proof {
                    assert(errors.deep_view() =~= errs0 + sp_lex_blob(s@, i as int).errs);
                }
                None
            },
        }
    } else {
        proof {
            assert(errors.deep_view() =~= errors.deep_view() + sp_lex_blob(s@, i as int).errs);
        }
        None
    }
}

/// Recognizes a char literal starting at `i`.
pub fn lex_char(s: &str, i: usize, errors: &mut Vec<Error>) -> (r: Option<(Token, usize)>)
    requires
        i <= s@.len(),
    ensures
        lex_result_ok(r, sp_lex_char(s@, i as int), i as int, s@),
        final(errors).deep_view() == old(errors).deep_view() + sp_lex_char(s@, i as int).errs,
{
    let n = s.unicode_len();
    let ghost errs0 = errors.deep_view();
    if i < n && n - i >= 2 && s.get_char(i) == '\'' {
        let c = s.get_char(i + 1);
        let alpha = char_is_alphabetic(c);
        if !alpha {
            let text = String::from_str(s.substring_char(i, n));
            errors.push(Error::new(i, n, text, DiagKind::CharInvalid));
            proof {
                assert(errors@ =~= old(errors)@.push(errors@.last()));
                crate::lemma_seq_dv_push(old(errors)@, errors@.last());
                assert(errors.deep_view() =~= errs0 + sp_lex_char(s@, i as int).errs);
            }
        } else {
            proof {
                assert(errors.deep_view() =~= errs0 + sp_lex_char(s@, i as int).errs);
            }
        }
        if n - i >= 3 && s.get_char(i + 2) == '\'' {
            let t = if alpha {
                Token::Char(c)
            } else {
                Token::Char('\0')
            };
            Some((t, i + 3))
        } else {
            None
        }
    } else {
        proof {
            assert(errors.deep_view() =~= errs0 + sp_lex_char(s@, i as int).errs);
        }
        None
    }
}

/// Classifies an unreadable slice by its first character.
fn classify(c: char) -> (r: DiagKind)
    ensures
        r == sp_classify(c),
{
    if c == '"' {
        DiagKind::MalformedString
    } else if c == '%' {
        DiagKind::MalformedBlob
    } else if c == '@' {
        DiagKind::MalformedTimeTag
    } else if c == '\'' {
        DiagKind::MalformedChar
    } else if c == '#' {
        DiagKind::MalformedColor
    } else if c == '~' {
        DiagKind::MalformedMidi
    } else if c == '_' {
        DiagKind::MalformedSuffix
    } else {
        DiagKind::MalformedIdent
    }
}

/// Builds the nested expected token an `Illegal` token carries.
fn expected_token(k: DiagKind, text: String) -> (r: Token)
    ensures
        r.deep_view() == sp_expected_token(k, text@),
{
    match k {
        DiagKind::MalformedString => Token::StringLiteral(String::new()),
        DiagKind::MalformedBlob => Token::Blob(Vec::new()),
        DiagKind::MalformedTimeTag => Token::TimeMsg(TimeMsg { seconds: 0, fractional: 0 }),
        DiagKind::MalformedChar => Token::Char('\0'),
        DiagKind::MalformedColor => Token::Color(Color { red: 0, green: 0, blue: 0, alpha: 0 }),
        DiagKind::MalformedMidi => Token::MidiMessage(
            MidiMsg { port: 0, status: 0, data1: 0, data2: 0 },
        ),
        DiagKind::MalformedSuffix => Token::IntLiteral(0),
        _ => Token::Ident(text),
    }
}

/// The catch-all: consumes up to the next line break as one `Illegal`
/// token and pushes one classified diagnostic.
pub fn lex_error(s: &str, i: usize, errors: &mut Vec<Error>) -> (r: (Token, usize))
    requires
        i < s@.len(),
        s@[i as int] != '\n',
    ensures
        ({
            let m = sp_lex_error(s@, i as int);
            &&& m.tok matches Some(p) && r.0.deep_view() == p.0 && r.1 as int == p.1 && i < r.1
                <= s@.len()
            &&& final(errors).deep_view() == old(errors).deep_view() + m.errs
        }),
{
    let e = run_line(s, i);
    proof {
        lemma_line_end_lb(s@, i as int + 1);
    }
    let kind = classify(s.get_char(i));
    let text = String::from_str(s.substring_char(i, e));
    let text2 = text.clone();
    errors.push(Error::new(i, e, text, kind));
    proof {
        assert(errors@ =~= old(errors)@.push(errors@.last()));
        crate::lemma_seq_dv_push(old(errors)@, errors@.last());
        assert(errors.deep_view() =~= old(errors).deep_view() + sp_lex_error(s@, i as int).errs);
    }
    let inner = expected_token(kind, text2);
    (Token::Illegal(Box::new(inner)), e)
}

/// One token from a non-whitespace position: the recognizers are tried
/// in order and the first match wins.
pub fn lex_token(s: &str, i: usize, errors: &mut Vec<Error>) -> (r: (Token, usize))
    requires
        i < s@.len(),
        !is_ws(s@[i as int]),
    ensures
        ({
            let m = sp_lex_token(s@, i as int);
            &&& m.tok matches Some(p) && r.0.deep_view() == p.0 && r.1 as int == p.1 && i < r.1
                <= s@.len()
            &&& final(errors).deep_view() == old(errors).deep_view() + m.errs
        }),
{
    let ghost errs0 = errors.deep_view();
    if let Some(p) = lex_osc_path(s, i) {
        proof {
            assert(errors.deep_view() =~= errs0 + sp_lex_token(s@, i as int).errs);
        }
        return p;
    }
    if let Some(p) = lex_punctuations(s, i) {
        proof {
            assert(errors.deep_view() =~= errs0 + sp_lex_token(s@, i as int).errs);
        }
        return p;
    }
    if let Some(p) = lex_string(s, i) {
        proof {
            assert(errors.deep_view() =~= errs0 + sp_lex_token(s@, i as int).errs);
        }
        return p;
    }
    let rb = lex_blob(s, i, errors);
    let ghost blob_errs = sp_lex_blob(s@, i as int).errs;
    if let Some(p) = rb {
        proof {
            assert(errors.deep_view() =~= errs0 + sp_lex_token(s@, i as int).errs);
        }
        return p;
    }
    if let Some(p) = lex_timemsg(s, i) {
        proof {
            assert(errors.deep_view() =~= errs0 + sp_lex_token(s@, i as int).errs);
        }
        return p;
    }
    if let Some(p) = lex_midimsg(s, i) {
        proof {
            assert(errors.deep_view() =~= errs0 + sp_lex_token(s@, i as int).errs);
        }
        return p;
    }
    if let Some(p) = lex_color(s, i) {
        proof {
            assert(errors.deep_view() =~= errs0 + sp_lex_token(s@, i as int).errs);
        }
        return p;
    }
    if let Some(p) = lex_long_integer(s, i) {
        proof {
            assert(errors.deep_view() =~= errs0 + sp_lex_token(s@, i as int).errs);
        }
        return p;
    }
    if let Some(p) = lex_double_float(s, i) {
        proof {
            assert(errors.deep_view() =~= errs0 + sp_lex_token(s@, i as int).errs);
        }
        return p;
    }
    if let Some(p) = lex_float(s, i) {
        proof {
            assert(errors.deep_view() =~= errs0 + sp_lex_token(s@, i as int).errs);
        }
        return p;
    }
    if let Some(p) = lex_integer(s, i) {
        proof {
            assert(errors.deep_view() =~= errs0 + sp_lex_token(s@, i as int).errs);
        }
        return p;
    }
    if let Some(p) = lex_reserved_ident(s, i) {
        proof {
            assert(errors.deep_view() =~= errs0 + sp_lex_token(s@, i as int).errs);
        }
        return p;
    }
    let rc = lex_char(s, i, errors);
    let ghost char_errs = sp_lex_char(s@, i as int).errs;
    if let Some(p) = rc {
        proof {
            assert(errors.deep_view() =~= errs0 + sp_lex_token(s@, i as int).errs);
        }
        return p;
    }
    let p = lex_error(s, i, errors);
    proof {
        assert(errors.deep_view() =~= errs0 + (blob_errs + (char_errs + sp_lex_error(
            s@,
            i as int,
        ).errs)));
        assert(errors.deep_view() =~= errs0 + sp_lex_token(s@, i as int).errs);
    }
    p
}

/// The scanner.
pub struct Lexer;

impl Lexer {
    /// Scans one line of text into its token sequence and diagnostic
    /// list: exactly what the model `sp_scan` says.  Every scan yields
    /// at least one token; the last is the terminal `EOF` and no
    /// earlier one is.
    pub fn analyse(source: &str) -> (r: (Vec<Token>, Vec<Error>))
        ensures
            r.0.deep_view() == sp_scan(source@, 0).toks,
            r.1.deep_view() == sp_scan(source@, 0).errs,
            r.0@.len() >= 1,
            r.0@.last() is EOF,
            forall|k: int| 0 <= k < r.0@.len() - 1 ==> !(#[trigger] r.0@[k] is EOF),
    {
        let n = source.unicode_len();
        let mut toks: Vec<Token> = Vec::new();
        let mut errs: Vec<Error> = Vec::new();
        let mut i: usize = 0;
        proof {
            crate::lemma_seq_dv_empty::<Token>();
            crate::lemma_seq_dv_empty::<Error>();
        }
        loop
            invariant_except_break
                i <= n,
                n == source@.len(),
                sp_scan(source@, 0).toks =~= toks.deep_view() + sp_scan(source@, i as int).toks,
                sp_scan(source@, 0).errs =~= errs.deep_view() + sp_scan(source@, i as int).errs,
            ensures
                toks.deep_view() =~= sp_scan(source@, 0).toks,
                errs.deep_view() =~= sp_scan(source@, 0).errs,
            decreases n - i,
        {
            let j = skip_ws(source, i);
            if j >= n {
                toks.push(Token::EOF);
                proof {
                    assert(toks@ =~= toks@.drop_last().push(Token::EOF));
                    crate::lemma_seq_dv_push(toks@.drop_last(), Token::EOF);
                    assert(toks.deep_view() =~= sp_scan(source@, 0).toks);
                }
                break;
            }
            let ghost toks0 = toks.deep_view();
            let ghost errs0 = errs.deep_view();
            let (t, k) = lex_token(source, j, &mut errs);
            toks.push(t);
            proof {
                let m = sp_lex_token(source@, j as int);
                assert(sp_scan(source@, i as int).toks =~= seq![(m.tok->0).0] + sp_scan(
                    source@,
                    k as int,
                ).toks);
                assert(sp_scan(source@, i as int).errs =~= m.errs + sp_scan(
                    source@,
                    k as int,
                ).errs);
                assert(toks@ =~= toks@.drop_last().push(t));
                crate::lemma_seq_dv_push(toks@.drop_last(), t);
                assert(toks.deep_view() =~= toks0.push(t.deep_view()));
                assert(sp_scan(source@, 0).toks =~= toks.deep_view() + sp_scan(
                    source@,
                    k as int,
                ).toks);
                assert(sp_scan(source@, 0).errs =~= errs.deep_view() + sp_scan(
                    source@,
                    k as int,
                ).errs);
            }
            i = k;
        }
        proof {
            lemma_scan_terminal(source@, 0);
            assert(toks@.len() == toks.deep_view().len());
            assert(toks@.last().deep_view() == toks.deep_view().last());
            lemma_token_variant_eof(toks@.last());
            assert forall|k: int| 0 <= k < toks@.len() - 1 implies !(#[trigger] toks@[k]
                is EOF) by {
                assert(toks@[k].deep_view() == toks.deep_view()[k]);
                lemma_token_variant_eof(toks@[k]);
            }
        }
        (toks, errs)
    }
}

/// A token models to the terminal exactly when it is the terminal.
proof fn lemma_token_variant_eof(t: Token)
    ensures
        (t.deep_view() is EOF) == (t is EOF),
{
    match t {
        Token::EOF => {
        },
        _ => {
            assert(!(t.deep_view() is EOF));
        },
    }
}

// ---------------------------------------------------------------
// Laws of the scanner
// ---------------------------------------------------------------

/// A run over characters that all lie in the address class reaches the
/// end of the text.
proof fn lemma_addr_end_all(s: Seq<char>, i: int)
    requires
        0 <= i <= s.len(),
        forall|m: int| i <= m < s.len() ==> is_addr_char(#[trigger] s[m]),
    ensures
        sp_addr_end(s, i) == s.len(),
    decreases s.len() - i,
{
    if i < s.len() {
        lemma_addr_end_all(s, i + 1);
    }
}

/// Scanning a whole line that matches the address grammar — a slash
/// followed by alphanumeric or punctuation characters, wildcards and
/// braces included — yields exactly one `OSCPath` token spanning the
/// entire input, the terminal `EOF`, and no diagnostics.
pub proof fn lemma_osc_address_scan(s: Seq<char>)
    requires
        s.len() >= 1,
        s[0] == '/',
        forall|m: int| 1 <= m < s.len() ==> is_addr_char(#[trigger] s[m]),
    ensures
        sp_scan(s, 0).toks == seq![SpecToken::OSCPath(s), SpecToken::EOF],
        sp_scan(s, 0).errs == Seq::<SpecDiag>::empty(),
{
    assert(!is_ws(s[0]));
    assert(sp_skip_ws(s, 0) == 0);
    lemma_addr_end_all(s, 1);
    assert(s.subrange(0, s.len() as int) =~= s);
    assert(sp_lex_osc_path(s, 0) == lexed(SpecToken::OSCPath(s), s.len() as int));
    let m = sp_lex_token(s, 0);
    assert(m == sp_lex_osc_path(s, 0));
    assert(sp_skip_ws(s, s.len() as int) == s.len() as int);
    assert(sp_scan(s, s.len() as int).toks == seq![SpecToken::EOF]);
    assert(sp_scan(s, 0).toks =~= seq![SpecToken::OSCPath(s), SpecToken::EOF]);
    assert(sp_scan(s, 0).errs =~= Seq::<SpecDiag>::empty());
}

/// No recognizer ever yields the terminal token itself.
proof fn lemma_lex_token_not_eof(s: Seq<char>, j: int)
    ensures
        sp_lex_token(s, j).tok matches Some(p) ==> !(p.0 is EOF),
{
    assert(sp_lex_osc_path(s, j).tok matches Some(p) ==> !(p.0 is EOF));
    assert(sp_lex_punctuations(s, j).tok matches Some(p) ==> !(p.0 is EOF));
    assert(sp_lex_string(s, j).tok matches Some(p) ==> !(p.0 is EOF));
    assert(sp_lex_blob(s, j).tok matches Some(p) ==> !(p.0 is EOF));
    assert(sp_lex_timemsg(s, j).tok matches Some(p) ==> !(p.0 is EOF));
    assert(sp_lex_midimsg(s, j).tok matches Some(p) ==> !(p.0 is EOF));
    assert(sp_lex_color(s, j).tok matches Some(p) ==> !(p.0 is EOF));
    assert(sp_lex_long_integer(s, j).tok matches Some(p) ==> !(p.0 is EOF));
    assert(sp_lex_double_float(s, j).tok matches Some(p) ==> !(p.0 is EOF));
    assert(sp_lex_float(s, j).tok matches Some(p) ==> !(p.0 is EOF));
    assert(sp_lex_integer(s, j).tok matches Some(p) ==> !(p.0 is EOF));
    assert(sp_lex_reserved_ident(s, j).tok matches Some(p) ==> !(p.0 is EOF));
    assert(sp_lex_char(s, j).tok matches Some(p) ==> !(p.0 is EOF));
    assert(sp_lex_error(s, j).tok matches Some(p) ==> !(p.0 is EOF));
}

/// Every scan ends in exactly one terminal token: the token sequence
/// is never empty, its last element is `EOF`, and no earlier element
/// is `EOF`.
pub proof fn lemma_scan_terminal(s: Seq<char>, i: int)
    ensures
        sp_scan(s, i).toks.len() >= 1,
        sp_scan(s, i).toks.last() == SpecToken::EOF,
        forall|k: int|
            0 <= k < sp_scan(s, i).toks.len() - 1 ==> sp_scan(s, i).toks[k] != SpecToken::EOF,
    decreases s.len() - i,
{
    let j = sp_skip_ws(s, i);
    if i <= j < s.len() {
        let m = sp_lex_token(s, j);
        lemma_lex_token_not_eof(s, j);
        match m.tok {
            Some((t, k)) => {
                if j < k <= s.len() {
                    lemma_scan_terminal(s, k);
                    let rest = sp_scan(s, k);
                    let whole = sp_scan(s, i);
                    assert(whole.toks == seq![t] + rest.toks);
                    assert(whole.toks.last() == rest.toks.last());
                    assert forall|q: int| 0 <= q < whole.toks.len() - 1 implies whole.toks[q]
                        != SpecToken::EOF by {
                        if q == 0 {
                            assert(whole.toks[0] == t);
                        } else {
                            assert(whole.toks[q] == rest.toks[q - 1]);
                        }
                    }
                } else {
                    assert(sp_scan(s, i).toks == seq![t, SpecToken::EOF]);
                }
            },
            None => {
            },
        }
    }
}

} // verus!
