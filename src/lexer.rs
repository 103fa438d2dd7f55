//! Tokens of the Beamfile language: whitespace and comments, identifiers,
//! string, number and boolean literals.

use vstd::prelude::*;

use crate::text::copy_str;
use vstd::string::StringSliceAdditionalSpecFns;

verus! {

/// A parse failure: what went wrong and where (a character position).
#[derive(Clone, Debug)]
pub struct ParseError {
    /// What went wrong.
    pub message: String,
    /// The text that was parsed.
    pub src: String,
    /// Where: the start and length, in characters.
    pub span: Option<(usize, usize)>,
}

impl ParseError {
    /// An error at `offset`.
    pub fn new(message: &str, src: &str, offset: usize) -> (r: ParseError)
        ensures
            r.message@ == message@,
            r.src@ == src@,
            r.span == Some((offset, 1usize)),
    {
        ParseError { message: copy_str(message), src: copy_str(src), span: Some((offset, 1)) }
    }

    /// An error at the end of the text: its last byte, or an empty span at
    /// 0 where the text is empty.
    pub fn eof(src: &str) -> (r: ParseError)
        ensures
            r.message@ == "Unexpected end of file"@,
            r.src@ == src@,
            r.span == Some(
                if (src.spec_bytes().len() as usize) == 0 {
                    (0usize, 0usize)
                } else {
                    (((src.spec_bytes().len() as usize) - 1) as usize, 1usize)
                },
            ),
    {
        proof {
            reveal_strlit("Unexpected end of file");
        }
        let n = src.len();
        let start = if n == 0 {
            0
        } else {
            n - 1
        };
        ParseError {
            message: copy_str("Unexpected end of file"),
            src: copy_str(src),
            span: Some((start, n - start)),
        }
    }
}

/// A failure inside the parser: a position and a message.
#[derive(Debug)]
pub struct Failure {
    pub pos: usize,
    pub message: String,
}

pub(crate) fn fail(pos: usize, message: &str) -> (r: Failure)
    ensures
        r.pos == pos,
{
    Failure { pos, message: copy_str(message) }
}

/// Space, tab, carriage return or newline.
pub open spec fn is_space(c: char) -> bool {
    c == ' ' || c == '\t' || c == '\r' || c == '\n'
}

/// The position of the first newline at or after `pos`, or the end.
pub open spec fn line_end(s: Seq<char>, pos: int) -> int
    decreases s.len() - pos,
{
    if pos >= s.len() || s[pos] == '\n' {
        pos
    } else {
        line_end(s, pos + 1)
    }
}

/// The position after the whitespace and comments that start at `pos`.
pub open spec fn ws_end(s: Seq<char>, pos: int) -> int
    decreases s.len() - pos,
{
    if 0 <= pos < s.len() && is_space(s[pos]) {
        ws_end(s, pos + 1)
    } else if 0 <= pos < s.len() && s[pos] == '#' {
        let e = line_end(s, pos + 1);
        if e <= pos || e > s.len() {
            pos
        } else {
            ws_end(s, e)
        }
    } else {
        pos
    }
}

proof fn lemma_line_end(s: Seq<char>, pos: int)
    requires
        0 <= pos <= s.len(),
    ensures
        pos <= line_end(s, pos) <= s.len(),
    decreases s.len() - pos,
{
    if pos < s.len() && s[pos] != '\n' {
        lemma_line_end(s, pos + 1);
    }
}

/// Skips whitespace and comments from `pos`.
pub fn skip_ws(s: &Vec<char>, pos: usize) -> (r: usize)
    requires
        pos <= s@.len(),
    ensures
        r == ws_end(s@, pos as int),
        pos <= r <= s@.len(),
    decreases s@.len() - pos,
{
    if pos < s.len() && (s[pos] == ' ' || s[pos] == '\t' || s[pos] == '\r' || s[pos] == '\n') {
        skip_ws(s, pos + 1)
    } else if pos < s.len() && s[pos] == '#' {
        let mut e = pos + 1;
        while e < s.len() && s[e] != '\n'
            invariant
                pos < e <= s@.len(),
                line_end(s@, e as int) == line_end(s@, pos + 1),
            decreases s@.len() - e,
        {
            e = e + 1;
        }
        proof {
            lemma_line_end(s@, pos + 1);
        }
        skip_ws(s, e)
    } else {
        pos
    }
}

/// A letter or underscore.
pub open spec fn is_ident_start(c: char) -> bool {
    ('a' <= c && c <= 'z') || ('A' <= c && c <= 'Z') || c == '_'
}

/// A letter, digit or underscore.
pub open spec fn is_ident_char(c: char) -> bool {
    is_ident_start(c) || ('0' <= c && c <= '9')
}

/// The position after the identifier characters that start at `pos`.
pub open spec fn ident_run_end(s: Seq<char>, pos: int) -> int
    decreases s.len() - pos,
{
    if 0 <= pos < s.len() && is_ident_char(s[pos]) {
        ident_run_end(s, pos + 1)
    } else {
        pos
    }
}

/// The identifier at `pos` and the position after it.
pub open spec fn spec_identifier(s: Seq<char>, pos: int) -> Option<(Seq<char>, int)> {
    if 0 <= pos < s.len() && is_ident_start(s[pos]) {
        Some((s.subrange(pos, ident_run_end(s, pos + 1)), ident_run_end(s, pos + 1)))
    } else {
        None
    }
}

fn is_ident_start_exec(c: char) -> (r: bool)
    ensures
        r == is_ident_start(c),
{
    ('a' <= c && c <= 'z') || ('A' <= c && c <= 'Z') || c == '_'
}

fn is_ident_char_exec(c: char) -> (r: bool)
    ensures
        r == is_ident_char(c),
{
    is_ident_start_exec(c) || ('0' <= c && c <= '9')
}

/// Reads the identifier at `pos`: `[A-Za-z_][A-Za-z0-9_]*`.
pub fn identifier(s: &Vec<char>, pos: usize) -> (r: Result<(String, usize), Failure>)
    requires
        pos <= s@.len(),
    ensures
        match r {
            Ok((id, end)) => spec_identifier(s@, pos as int) == Some((id@, end as int)) && pos < end
                <= s@.len(),
            Err(_) => spec_identifier(s@, pos as int) is None,
        },
{
    if pos < s.len() && is_ident_start_exec(s[pos]) {
        let mut e = pos + 1;
        while e < s.len() && is_ident_char_exec(s[e])
            invariant
                pos < e <= s@.len(),
                ident_run_end(s@, e as int) == ident_run_end(s@, pos + 1),
            decreases s@.len() - e,
        {
            e = e + 1;
        }
        let id = crate::text::string_of(vstd::slice::slice_subrange(s.as_slice(), pos, e));
        Ok((id, e))
    } else {
        Err(fail(pos, "expected an identifier"))
    }
}

/// The character that the escape `\c` stands for.
pub open spec fn unescape(c: char) -> Option<char> {
    if c == '\\' {
        Some('\\')
    } else if c == '"' {
        Some('"')
    } else if c == 'n' {
        Some('\n')
    } else if c == 'r' {
        Some('\r')
    } else if c == 't' {
        Some('\t')
    } else {
        None
    }
}

/// The contents of a string literal whose opening quote ends before `pos`:
/// the decoded characters and the position after the closing quote.
pub open spec fn spec_literal_body(s: Seq<char>, pos: int) -> Option<(Seq<char>, int)>
    decreases s.len() - pos,
{
    if pos < 0 || pos >= s.len() {
        None
    } else if s[pos] == '"' {
        Some((Seq::empty(), pos + 1))
    } else if s[pos] == '\\' {
        if pos + 1 < s.len() && unescape(s[pos + 1]) is Some {
            match spec_literal_body(s, pos + 2) {
                Some((rest, end)) => Some((seq![unescape(s[pos + 1])->0] + rest, end)),
                None => None,
            }
        } else {
            None
        }
    } else {
        match spec_literal_body(s, pos + 1) {
            Some((rest, end)) => Some((seq![s[pos]] + rest, end)),
            None => None,
        }
    }
}

/// The string literal at `pos`: its decoded characters and the position after it.
pub open spec fn spec_string_literal(s: Seq<char>, pos: int) -> Option<(Seq<char>, int)> {
    if 0 <= pos < s.len() && s[pos] == '"' {
        spec_literal_body(s, pos + 1)
    } else {
        None
    }
}

fn unescape_exec(c: char) -> (r: Option<char>)
    ensures
        r == unescape(c),
{
    if c == '\\' {
        Some('\\')
    } else if c == '"' {
        Some('"')
    } else if c == 'n' {
        Some('\n')
    } else if c == 'r' {
        Some('\r')
    } else if c == 't' {
        Some('\t')
    } else {
        None
    }
}

/// Reads the string literal at `pos`, with the escapes `\\ \" \n \r \t`.
pub fn string_literal(s: &Vec<char>, pos: usize) -> (r: Result<(String, usize), Failure>)
    requires
        pos <= s@.len(),
    ensures
        match r {
            Ok((v, end)) => spec_string_literal(s@, pos as int) == Some((v@, end as int)) && pos < end
                <= s@.len(),
            Err(_) => spec_string_literal(s@, pos as int) is None,
        },
{
    if pos >= s.len() || s[pos] != '"' {
        return Err(fail(pos, "expected a string"));
    }
    let mut out: Vec<char> = Vec::new();
    let mut i = pos + 1;
    while i < s.len()
        invariant
            pos < i <= s@.len(),
            s@[pos as int] == '"',
            spec_literal_body(s@, pos + 1) == match spec_literal_body(s@, i as int) {
                Some((rest, end)) => Some((out@ + rest, end)),
                None => None,
            },
        decreases s@.len() - i,
    {
        let c = s[i];
        if c == '"' {
            proof {
                assert(spec_literal_body(s@, i as int) == Some((Seq::<char>::empty(), i + 1)));
                assert(out@ + Seq::<char>::empty() =~= out@);
                assert(s@[pos as int] == '"');
            }
            let v = crate::text::string_of(out.as_slice());
            return Ok((v, i + 1));
        } else if c == '\\' {
            if i + 1 < s.len() {
                match unescape_exec(s[i + 1]) {
                    Some(d) => {
                        proof {
                            match spec_literal_body(s@, i + 2) {
                                Some((rest, end)) => {
                                    assert(out@ + (seq![d] + rest) =~= out@.push(d) + rest);
                                },
                                None => {},
                            }
                        }
                        out.push(d);
                        i = i + 2;
                    },
                    None => {
                        return Err(fail(i, "unknown escape in string"));
                    },
                }
            } else {
                return Err(fail(i, "unterminated string"));
            }
        } else {
            proof {
                match spec_literal_body(s@, i + 1) {
                    Some((rest, end)) => {
                        assert(out@ + (seq![c] + rest) =~= out@.push(c) + rest);
                    },
                    None => {},
                }
            }
            out.push(c);
            i = i + 1;
        }
    }
    Err(fail(i, "unterminated string"))
}

/// The escaped form of `t`, as it stands between the quotes of a literal.
pub open spec fn escape(t: Seq<char>) -> Seq<char>
    decreases t.len(),
{
    if t.len() == 0 {
        Seq::empty()
    } else {
        let c = t[0];
        let e = if c == '\\' {
            seq!['\\', '\\']
        } else if c == '"' {
            seq!['\\', '"']
        } else if c == '\n' {
            seq!['\\', 'n']
        } else if c == '\r' {
            seq!['\\', 'r']
        } else if c == '\t' {
            seq!['\\', 't']
        } else {
            seq![c]
        };
        e + escape(t.skip(1))
    }
}

/// Escaping a string and reading it back as a literal gives the string.
pub proof fn lemma_escape_round_trip(t: Seq<char>, rest: Seq<char>)
    ensures
        spec_string_literal(seq!['"'] + escape(t) + seq!['"'] + rest, 0) == Some(
            (t, escape(t).len() + 2int),
        ),
{
    let s = seq!['"'] + escape(t) + seq!['"'] + rest;
    lemma_body_round_trip(t, seq!['"'], seq!['"'] + rest);
    assert(s =~= seq!['"'] + escape(t) + (seq!['"'] + rest));
}

proof fn lemma_body_round_trip(t: Seq<char>, before: Seq<char>, after: Seq<char>)
    requires
        after.len() > 0,
        after[0] == '"',
    ensures
        spec_literal_body(before + escape(t) + after, before.len() as int) == Some(
            (t, before.len() + escape(t).len() + 1int),
        ),
    decreases t.len(),
{
    let s = before + escape(t) + after;
    if t.len() == 0 {
        assert(escape(t) =~= Seq::<char>::empty());
        assert(s[before.len() as int] == '"');
    } else {
        let c = t[0];
        let e = escape(t).take(escape(t).len() - escape(t.skip(1)).len());
        let k: int = if c == '\\' || c == '"' || c == '\n' || c == '\r' || c == '\t' { 2 } else { 1 };
        assert(escape(t).len() == k + escape(t.skip(1)).len());
        let before2 = before + escape(t).take(k);
        assert(before2 + escape(t.skip(1)) + after =~= s);
        lemma_body_round_trip(t.skip(1), before2, after);
        let p = before.len() as int;
        if k == 2 {
            assert(s[p] == '\\');
            assert(unescape(s[p + 1]) == Some(c));
            match spec_literal_body(s, p + 2) {
                Some((r, end)) => {
                    assert(seq![c] + t.skip(1) =~= t);
                },
                None => {},
            }
        } else {
            assert(s[p] == c);
            assert(seq![c] + t.skip(1) =~= t);
        }
    }
}

/// The tokens of the Beamfile language.
#[derive(Clone, Debug, PartialEq)]
pub enum Token {
    Beam,
    Variable,
    Condition,
    Env,
    PreHook,
    PostHook,
    Run,
    Identifier(String),
    String(String),
    Number(i64),
    Bool(bool),
    Equals,
    OpenBrace,
    CloseBrace,
    OpenBracket,
    CloseBracket,
    Comma,
    Comment(String),
    Eof,
}

} // verus!
