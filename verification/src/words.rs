//! Splitting a raw input line into words before scanning: a
//! character-level state machine that honours single and double
//! quotes, backslashes, and square-bracketed compound groups, and
//! tags each word as a scalar or a compound.
//!
//! Both machines are total but for one failure: input that ends inside
//! an open quote or bracket.  Each is specified as a recursive model
//! over `Seq<char>` and the executable loop is proved to return
//! exactly what the model says.

use vstd::prelude::*;

verus! {

/// Whether a word stands alone or belongs to a bracketed group.
#[derive(Clone, Copy, Debug, PartialEq, Eq, Structural)]
pub enum DataType {
    Scalar,
    Compound,
}

impl DeepView for DataType {
    type V = DataType;

    open spec fn deep_view(&self) -> DataType {
        *self
    }
}

/// The failure of a split: a closing quote is missing.
#[derive(Clone, Copy, Debug, PartialEq, Eq, Structural)]
pub struct ParseError;

impl ParseError {
    /// The human rendering of the failure.
    pub fn message(&self) -> (r: String)
        ensures
            r@ == "missing closing quote"@,
    {
        String::from_str("missing closing quote")
    }
}

/// The capture state between two characters of the input.
#[derive(Clone, Copy, Debug, PartialEq, Eq, Structural)]
pub enum CaptureSymbol {
    Delimiter,
    Backslash,
    Unquoted,
    UnquotedBackslash,
    SingleQuoted,
    DoubleQuoted,
    OpenSquareBracket,
    Unbracket,
}

/// One collected word and its tag.
pub type SpecWord = (Seq<char>, DataType);

/// The word-splitting machine, from position `i` in state `st` with
/// the partial word `word` and the words collected so far.  `None` is
/// the missing-closing-quote failure.
pub open spec fn sp_words(
    s: Seq<char>,
    i: int,
    st: CaptureSymbol,
    word: Seq<char>,
    acc: Seq<SpecWord>,
) -> Option<Seq<SpecWord>>
    decreases s.len() - i,
{
    if !(0 <= i) {
        None
    } else if i >= s.len() {
        match st {
            CaptureSymbol::Delimiter => Some(acc),
            CaptureSymbol::Backslash => Some(acc.push((word + "\\"@, DataType::Scalar))),
            CaptureSymbol::Unquoted => Some(acc.push((word, DataType::Scalar))),
            CaptureSymbol::UnquotedBackslash => Some(
                acc.push((word + "\\"@, DataType::Scalar)),
            ),
            CaptureSymbol::SingleQuoted => None,
            CaptureSymbol::DoubleQuoted => None,
            CaptureSymbol::OpenSquareBracket => None,
            CaptureSymbol::Unbracket => Some(
                acc.push(("["@ + word + "]"@, DataType::Compound)),
            ),
        }
    } else {
        let c = s[i];
        match st {
            CaptureSymbol::Delimiter => {
                if c == '\'' {
                    sp_words(s, i + 1, CaptureSymbol::SingleQuoted, word, acc)
                } else if c == '"' {
                    sp_words(s, i + 1, CaptureSymbol::DoubleQuoted, word, acc)
                } else if c == '\\' {
                    sp_words(s, i + 1, CaptureSymbol::Backslash, word, acc)
                } else if c == '\n' {
                    sp_words(s, i + 1, CaptureSymbol::Delimiter, word, acc)
                } else if c == '[' {
                    sp_words(s, i + 1, CaptureSymbol::OpenSquareBracket, word, acc)
                } else {
                    sp_words(s, i + 1, CaptureSymbol::Unquoted, word.push(c), acc)
                }
            },
            CaptureSymbol::Backslash => {
                if c == '\n' {
                    sp_words(s, i + 1, CaptureSymbol::Delimiter, word, acc)
                } else {
                    sp_words(s, i + 1, CaptureSymbol::Unquoted, word.push(c), acc)
                }
            },
            CaptureSymbol::Unquoted => {
                if c == '\'' {
                    sp_words(s, i + 1, CaptureSymbol::SingleQuoted, word, acc)
                } else if c == '"' {
                    sp_words(s, i + 1, CaptureSymbol::DoubleQuoted, word, acc)
                } else if c == '\\' {
                    sp_words(s, i + 1, CaptureSymbol::UnquotedBackslash, word, acc)
                } else if c == '\t' || c == ' ' || c == '\n' {
                    sp_words(
                        s,
                        i + 1,
                        CaptureSymbol::Delimiter,
                        Seq::empty(),
                        acc.push((word, DataType::Scalar)),
                    )
                } else {
                    sp_words(s, i + 1, CaptureSymbol::Unquoted, word.push(c), acc)
                }
            },
            CaptureSymbol::Unbracket => {
                if c == '\'' {
                    sp_words(s, i + 1, CaptureSymbol::SingleQuoted, word, acc)
                } else if c == '"' {
                    sp_words(s, i + 1, CaptureSymbol::DoubleQuoted, word, acc)
                } else if c == '\\' {
                    sp_words(s, i + 1, CaptureSymbol::UnquotedBackslash, word, acc)
                } else if c == '\t' || c == ' ' || c == '\n' {
                    sp_words(
                        s,
                        i + 1,
                        CaptureSymbol::Delimiter,
                        Seq::empty(),
                        acc.push((word, DataType::Compound)),
                    )
                } else {
                    sp_words(s, i + 1, CaptureSymbol::Unbracket, word.push(c), acc)
                }
            },
            CaptureSymbol::UnquotedBackslash => {
                if c == '\n' {
                    sp_words(s, i + 1, CaptureSymbol::Unquoted, word, acc)
                } else {
                    sp_words(s, i + 1, CaptureSymbol::Unquoted, word.push(c), acc)
                }
            },
            CaptureSymbol::SingleQuoted => {
                if c == '\'' {
                    sp_words(s, i + 1, CaptureSymbol::Unquoted, word, acc)
                } else {
                    sp_words(s, i + 1, CaptureSymbol::SingleQuoted, word.push(c), acc)
                }
            },
            CaptureSymbol::DoubleQuoted => {
                if c == '"' || c == '\n' {
                    sp_words(s, i + 1, CaptureSymbol::Unquoted, word, acc)
                } else {
                    sp_words(s, i + 1, CaptureSymbol::DoubleQuoted, word.push(c), acc)
                }
            },
            CaptureSymbol::OpenSquareBracket => {
                if c == ']' {
                    sp_words(s, i + 1, CaptureSymbol::Unbracket, word, acc)
                } else {
                    sp_words(s, i + 1, CaptureSymbol::OpenSquareBracket, word.push(c), acc)
                }
            },
        }
    }
}

/// What splitting a whole line yields.
pub open spec fn sp_try_into_args(s: Seq<char>) -> Option<Seq<SpecWord>> {
    sp_words(s, 0, CaptureSymbol::Delimiter, Seq::empty(), Seq::empty())
}

/// Splits one raw line into tagged words, exactly as the model
/// `sp_try_into_args` says; fails exactly when the line ends inside an
/// open quote or bracket.
#[verifier::loop_isolation(false)]
pub fn try_into_args(s: &str) -> (r: Result<Vec<(String, DataType)>, ParseError>)
    ensures
        ({
            let m = sp_try_into_args(s@);
            match m {
                Some(ws) => r matches Ok(v) && v.deep_view() == ws,
                None => r matches Err(e) && e == ParseError,
            }
        }),
{
    let n = s.unicode_len();
    let mut st = CaptureSymbol::Delimiter;
    let mut word = String::new();
    let mut into: Vec<(String, DataType)> = Vec::new();
    let mut i: usize = 0;
    proof {
        crate::lemma_seq_dv_empty::<(String, DataType)>();
    }
    while i < n
        invariant
            i <= n,
            sp_try_into_args(s@) == sp_words(s@, i as int, st, word@, into.deep_view()),
        decreases n - i,
    {
        let ghost gi = i as int;
        let ghost gst = st;
        let ghost gword = word@;
        let ghost gacc = into.deep_view();
        let c = s.get_char(i);
        let cs = s.substring_char(i, i + 1);
        proof {
            assert(cs@ =~= seq![c]);
            assert(gword.push(c) =~= gword + cs@);
        }
        match st {
            CaptureSymbol::Delimiter => {
                if c == '\'' {
                    st = CaptureSymbol::SingleQuoted;
                } else if c == '"' {
                    st = CaptureSymbol::DoubleQuoted;
                } else if c == '\\' {
                    st = CaptureSymbol::Backslash;
                } else if c == '\n' {
                } else if c == '[' {
                    st = CaptureSymbol::OpenSquareBracket;
                } else {
                    word.append(cs);
                    st = CaptureSymbol::Unquoted;
                }
            },
            CaptureSymbol::Backslash => {
                if c == '\n' {
                    st = CaptureSymbol::Delimiter;
                } else {
                    word.append(cs);
                    st = CaptureSymbol::Unquoted;
                }
            },
            CaptureSymbol::Unquoted => {
                if c == '\'' {
                    st = CaptureSymbol::SingleQuoted;
                } else if c == '"' {
                    st = CaptureSymbol::DoubleQuoted;
                } else if c == '\\' {
                    st = CaptureSymbol::UnquotedBackslash;
                } else if c == '\t' || c == ' ' || c == '\n' {
                    let ghost into0 = into@;
                    let w = word;
                    word = String::new();
                    into.push((w, DataType::Scalar));
                    proof {
                        crate::lemma_seq_dv_push(into0, into@.last());
                        assert(into.deep_view() =~= gacc.push((gword, DataType::Scalar)));
                    }
                    st = CaptureSymbol::Delimiter;
                } else {
                    word.append(cs);
                }
            },
            CaptureSymbol::Unbracket => {
                if c == '\'' {
                    st = CaptureSymbol::SingleQuoted;
                } else if c == '"' {
                    st = CaptureSymbol::DoubleQuoted;
                } else if c == '\\' {
                    st = CaptureSymbol::UnquotedBackslash;
                } else if c == '\t' || c == ' ' || c == '\n' {
                    let ghost into0 = into@;
                    let w = word;
                    word = String::new();
                    into.push((w, DataType::Compound));
                    proof {
                        crate::lemma_seq_dv_push(into0, into@.last());
                        assert(into.deep_view() =~= gacc.push((gword, DataType::Compound)));
                    }
                    st = CaptureSymbol::Delimiter;
                } else {
                    word.append(cs);
                }
            },
            CaptureSymbol::UnquotedBackslash => {
                if c == '\n' {
                    st = CaptureSymbol::Unquoted;
                } else {
                    word.append(cs);
                    st = CaptureSymbol::Unquoted;
                }
            },
            CaptureSymbol::SingleQuoted => {
                if c == '\'' {
                    st = CaptureSymbol::Unquoted;
                } else {
                    word.append(cs);
                }
            },
            CaptureSymbol::DoubleQuoted => {
                if c == '"' || c == '\n' {
                    st = CaptureSymbol::Unquoted;
                } else {
                    word.append(cs);
                }
            },
            CaptureSymbol::OpenSquareBracket => {
                if c == ']' {
                    st = CaptureSymbol::Unbracket;
                } else {
                    word.append(cs);
                }
            },
        }
        i = i + 1;
        proof {
            assert(sp_words(s@, gi, gst, gword, gacc) == sp_words(
                s@,
                i as int,
                st,
                word@,
                into.deep_view(),
            ));
        }
    }
    match st {
        CaptureSymbol::Delimiter => Ok(into),
        CaptureSymbol::Backslash | CaptureSymbol::UnquotedBackslash => {
            let ghost into0 = into@;
            let mut w = word;
            w.append("\\");
            proof {
                reveal_strlit("\\");
                assert("\\"@ =~= seq!['\\']);
            }
            into.push((w, DataType::Scalar));
            proof {
                crate::lemma_seq_dv_push(into0, into@.last());
            }
            Ok(into)
        },
        CaptureSymbol::Unquoted => {
            let ghost into0 = into@;
            into.push((word, DataType::Scalar));
            proof {
                crate::lemma_seq_dv_push(into0, into@.last());
            }
            Ok(into)
        },
        CaptureSymbol::Unbracket => {
            let ghost into0 = into@;
            let mut br = String::from_str("[");
            br.append(word.as_str());
            br.append("]");
            into.push((br, DataType::Compound));
            proof {
                crate::lemma_seq_dv_push(into0, into@.last());
            }
            Ok(into)
        },
        CaptureSymbol::SingleQuoted | CaptureSymbol::DoubleQuoted
            | CaptureSymbol::OpenSquareBracket => Err(ParseError),
    }
}

/// The compound-splitting machine: like `sp_words`, but a bare word
/// opens a bracketed group, and inside an open bracket spaces split
/// scalar words of their own.
pub open spec fn sp_words_c(
    s: Seq<char>,
    i: int,
    st: CaptureSymbol,
    word: Seq<char>,
    acc: Seq<SpecWord>,
) -> Option<Seq<SpecWord>>
    decreases s.len() - i,
{
    if !(0 <= i) {
        None
    } else if i >= s.len() {
        match st {
            CaptureSymbol::Delimiter => Some(acc),
            CaptureSymbol::Backslash => Some(acc.push((word + "\\"@, DataType::Scalar))),
            CaptureSymbol::Unquoted => Some(acc.push((word, DataType::Scalar))),
            CaptureSymbol::UnquotedBackslash => Some(
                acc.push((word + "\\"@, DataType::Scalar)),
            ),
            CaptureSymbol::SingleQuoted => None,
            CaptureSymbol::DoubleQuoted => None,
            CaptureSymbol::OpenSquareBracket => None,
            CaptureSymbol::Unbracket => Some(
                acc.push(("["@ + word + "]"@, DataType::Compound)),
            ),
        }
    } else {
        let c = s[i];
        match st {
            CaptureSymbol::Delimiter => {
                if c == '\'' {
                    sp_words_c(s, i + 1, CaptureSymbol::SingleQuoted, word, acc)
                } else if c == '"' {
                    sp_words_c(s, i + 1, CaptureSymbol::DoubleQuoted, word, acc)
                } else if c == '\\' {
                    sp_words_c(s, i + 1, CaptureSymbol::Backslash, word, acc)
                } else if c == '\n' || c == ' ' {
                    sp_words_c(s, i + 1, CaptureSymbol::Delimiter, word, acc)
                } else if c == '[' {
                    sp_words_c(s, i + 1, CaptureSymbol::OpenSquareBracket, word, acc)
                } else {
                    sp_words_c(s, i + 1, CaptureSymbol::Unbracket, word.push(c), acc)
                }
            },
            CaptureSymbol::Backslash => {
                if c == '\n' {
                    sp_words_c(s, i + 1, CaptureSymbol::Delimiter, word, acc)
                } else {
                    sp_words_c(s, i + 1, CaptureSymbol::Unquoted, word.push(c), acc)
                }
            },
            CaptureSymbol::Unquoted => {
                if c == '\'' {
                    sp_words_c(s, i + 1, CaptureSymbol::SingleQuoted, word, acc)
                } else if c == '"' {
                    sp_words_c(s, i + 1, CaptureSymbol::DoubleQuoted, word, acc)
                } else if c == '\\' {
                    sp_words_c(s, i + 1, CaptureSymbol::UnquotedBackslash, word, acc)
                } else if c == '\t' || c == ' ' || c == '\n' {
                    sp_words_c(
                        s,
                        i + 1,
                        CaptureSymbol::Delimiter,
                        Seq::empty(),
                        acc.push((word, DataType::Scalar)),
                    )
                } else {
                    sp_words_c(s, i + 1, CaptureSymbol::Unquoted, word.push(c), acc)
                }
            },
            CaptureSymbol::Unbracket => {
                if c == '\'' {
                    sp_words_c(s, i + 1, CaptureSymbol::SingleQuoted, word, acc)
                } else if c == '"' {
                    sp_words_c(s, i + 1, CaptureSymbol::DoubleQuoted, word, acc)
                } else if c == '\\' {
                    sp_words_c(s, i + 1, CaptureSymbol::UnquotedBackslash, word, acc)
                } else if c == '\t' || c == ' ' || c == '\n' {
                    sp_words_c(
                        s,
                        i + 1,
                        CaptureSymbol::OpenSquareBracket,
                        Seq::empty(),
                        acc.push((word, DataType::Scalar)),
                    )
                } else {
                    sp_words_c(s, i + 1, CaptureSymbol::Unbracket, word.push(c), acc)
                }
            },
            CaptureSymbol::UnquotedBackslash => {
                if c == '\n' {
                    sp_words_c(s, i + 1, CaptureSymbol::Unquoted, word, acc)
                } else {
                    sp_words_c(s, i + 1, CaptureSymbol::Unquoted, word.push(c), acc)
                }
            },
            CaptureSymbol::SingleQuoted => {
                if c == '\'' {
                    sp_words_c(s, i + 1, CaptureSymbol::Unquoted, word, acc)
                } else {
                    sp_words_c(s, i + 1, CaptureSymbol::SingleQuoted, word.push(c), acc)
                }
            },
            CaptureSymbol::DoubleQuoted => {
                if c == '"' || c == '\n' {
                    sp_words_c(s, i + 1, CaptureSymbol::Unquoted, word, acc)
                } else {
                    sp_words_c(s, i + 1, CaptureSymbol::DoubleQuoted, word.push(c), acc)
                }
            },
            CaptureSymbol::OpenSquareBracket => {
                if c == ' ' {
                    sp_words_c(
                        s,
                        i + 1,
                        CaptureSymbol::OpenSquareBracket,
                        Seq::empty(),
                        acc.push((word, DataType::Scalar)),
                    )
                } else if c == ']' || c == '\t' || c == '\n' {
                    sp_words_c(
                        s,
                        i + 1,
                        CaptureSymbol::Delimiter,
                        Seq::empty(),
                        acc.push((word, DataType::Scalar)),
                    )
                } else {
                    sp_words_c(s, i + 1, CaptureSymbol::OpenSquareBracket, word.push(c), acc)
                }
            },
        }
    }
}

/// What compound-splitting a whole line yields.
pub open spec fn sp_try_into_compound_args(s: Seq<char>) -> Option<Seq<SpecWord>> {
    sp_words_c(s, 0, CaptureSymbol::Delimiter, Seq::empty(), Seq::empty())
}

/// Splits one raw line with the compound-first machine, exactly as the
/// model `sp_try_into_compound_args` says.
#[verifier::loop_isolation(false)]
pub fn try_into_compound_args(s: &str) -> (r: Result<Vec<(String, DataType)>, ParseError>)
    ensures
        ({
            let m = sp_try_into_compound_args(s@);
            match m {
                Some(ws) => r matches Ok(v) && v.deep_view() == ws,
                None => r matches Err(e) && e == ParseError,
            }
        }),
{
    let n = s.unicode_len();
    let mut st = CaptureSymbol::Delimiter;
    let mut word = String::new();
    let mut into: Vec<(String, DataType)> = Vec::new();
    let mut i: usize = 0;
    proof {
        crate::lemma_seq_dv_empty::<(String, DataType)>();
    }
    while i < n
        invariant
            i <= n,
            sp_try_into_compound_args(s@) == sp_words_c(
                s@,
                i as int,
                st,
                word@,
                into.deep_view(),
            ),
        decreases n - i,
    {
        let ghost gi = i as int;
        let ghost gst = st;
        let ghost gword = word@;
        let ghost gacc = into.deep_view();
        let c = s.get_char(i);
        let cs = s.substring_char(i, i + 1);
        proof {
            assert(cs@ =~= seq![c]);
            assert(gword.push(c) =~= gword + cs@);
        }
        match st {
            CaptureSymbol::Delimiter => {
                if c == '\'' {
                    st = CaptureSymbol::SingleQuoted;
                } else if c == '"' {
                    st = CaptureSymbol::DoubleQuoted;
                } else if c == '\\' {
                    st = CaptureSymbol::Backslash;
                } else if c == '\n' || c == ' ' {
                } else if c == '[' {
                    st = CaptureSymbol::OpenSquareBracket;
                } else {
                    word.append(cs);
                    st = CaptureSymbol::Unbracket;
                }
            },
            CaptureSymbol::Backslash => {
                if c == '\n' {
                    st = CaptureSymbol::Delimiter;
                } else {
                    word.append(cs);
                    st = CaptureSymbol::Unquoted;
                }
            },
            CaptureSymbol::Unquoted => {
                if c == '\'' {
                    st = CaptureSymbol::SingleQuoted;
                } else if c == '"' {
                    st = CaptureSymbol::DoubleQuoted;
                } else if c == '\\' {
                    st = CaptureSymbol::UnquotedBackslash;
                } else if c == '\t' || c == ' ' || c == '\n' {
                    let ghost into0 = into@;
                    let w = word;
                    word = String::new();
                    into.push((w, DataType::Scalar));
                    proof {
                        crate::lemma_seq_dv_push(into0, into@.last());
                        assert(into.deep_view() =~= gacc.push((gword, DataType::Scalar)));
                    }
                    st = CaptureSymbol::Delimiter;
                } else {
                    word.append(cs);
                }
            },
            CaptureSymbol::Unbracket => {
                if c == '\'' {
                    st = CaptureSymbol::SingleQuoted;
                } else if c == '"' {
                    st = CaptureSymbol::DoubleQuoted;
                } else if c == '\\' {
                    st = CaptureSymbol::UnquotedBackslash;
                } else if c == '\t' || c == ' ' || c == '\n' {
                    let ghost into0 = into@;
                    let w = word;
                    word = String::new();
                    into.push((w, DataType::Scalar));
                    proof {
                        crate::lemma_seq_dv_push(into0, into@.last());
                        assert(into.deep_view() =~= gacc.push((gword, DataType::Scalar)));
                    }
                    st = CaptureSymbol::OpenSquareBracket;
                } else {
                    word.append(cs);
                }
            },
            CaptureSymbol::UnquotedBackslash => {
                if c == '\n' {
                    st = CaptureSymbol::Unquoted;
                } else {
                    word.append(cs);
                    st = CaptureSymbol::Unquoted;
                }
            },
            CaptureSymbol::SingleQuoted => {
                if c == '\'' {
                    st = CaptureSymbol::Unquoted;
                } else {
                    word.append(cs);
                }
            },
            CaptureSymbol::DoubleQuoted => {
                if c == '"' || c == '\n' {
                    st = CaptureSymbol::Unquoted;
                } else {
                    word.append(cs);
                }
            },
            CaptureSymbol::OpenSquareBracket => {
                if c == ' ' {
                    let ghost into0 = into@;
                    let w = word;
                    word = String::new();
                    into.push((w, DataType::Scalar));
                    proof {
                        crate::lemma_seq_dv_push(into0, into@.last());
                        assert(into.deep_view() =~= gacc.push((gword, DataType::Scalar)));
                    }
                } else if c == ']' || c == '\t' || c == '\n' {
                    let ghost into0 = into@;
                    let w = word;
                    word = String::new();
                    into.push((w, DataType::Scalar));
                    proof {
                        crate::lemma_seq_dv_push(into0, into@.last());
                        assert(into.deep_view() =~= gacc.push((gword, DataType::Scalar)));
                    }
                    st = CaptureSymbol::Delimiter;
                } else {
                    word.append(cs);
                }
            },
        }
        i = i + 1;
        proof {
            assert(sp_words_c(s@, gi, gst, gword, gacc) == sp_words_c(
                s@,
                i as int,
                st,
                word@,
                into.deep_view(),
            ));
        }
    }
    match st {
        CaptureSymbol::Delimiter => Ok(into),
        CaptureSymbol::Backslash | CaptureSymbol::UnquotedBackslash => {
            let ghost into0 = into@;
            let mut w = word;
            w.append("\\");
            proof {
                reveal_strlit("\\");
                assert("\\"@ =~= seq!['\\']);
            }
            into.push((w, DataType::Scalar));
            proof {
                crate::lemma_seq_dv_push(into0, into@.last());
            }
            Ok(into)
        },
        CaptureSymbol::Unquoted => {
            let ghost into0 = into@;
            into.push((word, DataType::Scalar));
            proof {
                crate::lemma_seq_dv_push(into0, into@.last());
            }
            Ok(into)
        },
        CaptureSymbol::Unbracket => {
            let ghost into0 = into@;
            let mut br = String::from_str("[");
            br.append(word.as_str());
            br.append("]");
            into.push((br, DataType::Compound));
            proof {
                crate::lemma_seq_dv_push(into0, into@.last());
            }
            Ok(into)
        },
        CaptureSymbol::SingleQuoted | CaptureSymbol::DoubleQuoted
            | CaptureSymbol::OpenSquareBracket => Err(ParseError),
    }
}

} // verus!
