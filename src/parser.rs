//! The Beamfile parser: text to syntax tree to Beamfile.
//!
//! ```text
//! file       := item*
//! item       := "variable" STRING block | "beam" STRING "{" beam-item* "}"
//!             | "default" "=" STRING
//! beam-item  := "description" "=" STRING | "depends_on" "=" string-array
//!             | "inputs" "=" string-array | "outputs" "=" string-array
//!             | "env" "{" (IDENT "=" STRING)* "}" | "condition" "{" cond-body "}"
//!             | "pre_hook" block | "post_hook" block | "run" block
//! cond-body  := "file_exists" "=" STRING | "env_set" "=" STRING
//!             | "env_equals" block
//! value      := STRING | NUMBER | BOOL | array | block
//! array      := "[" (value ("," value)* ","?)? "]"
//! block      := "{" (IDENT "=" value)* "}"
//! ```
//! Whitespace and `#` comments may stand between any two tokens.

use vstd::prelude::*;

use crate::ast::{HookModel, hook_view, opt_view, run_view, CondModel, ItemModel, TopModel, cond_view, item_view, items_view, str_pairs_view, strs_view, top_view, tops_view, ValueModel, fields_view, lemma_array_view, lemma_block_view, vals_view, value_view, AstHook, AstRun, AstBeam, AstBeamItem, AstBeamfile, AstCondition, AstItem, AstValue, AstVariable};
use crate::beam::{Beam, RunBlock};
use crate::beamfile::{Beamfile, variable_names_of};
use crate::condition::Condition;
use crate::error::{AuroraError, Span};
use crate::fields::{block_model, field_string, hook_body, run_body};
use crate::hook::Hook;
use crate::lexer::{Failure, fail, identifier, skip_ws, spec_identifier, spec_string_literal, string_literal, ws_end};
use crate::strmap::StrMap;
use crate::text::{chars_of, copy_str, str_eq};
use crate::variable::Variable;

verus! {

/// The value of the decimal digits `s[a..b]`.
pub open spec fn digits_value(s: Seq<char>, a: int, b: int) -> int
    decreases b - a,
{
    if b <= a {
        0
    } else {
        digits_value(s, a, b - 1) * 10 + (s[b - 1] as int - '0' as int)
    }
}

/// A decimal digit.
pub open spec fn is_digit(c: char) -> bool {
    '0' <= c && c <= '9'
}

/// The position after the digits that start at `pos`.
pub open spec fn digit_run_end(s: Seq<char>, pos: int) -> int
    decreases s.len() - pos,
{
    if 0 <= pos < s.len() && is_digit(s[pos]) {
        digit_run_end(s, pos + 1)
    } else {
        pos
    }
}

/// The integer literal at `pos` (an optional `-` and at least one digit)
/// and the position after it; `None` where there is none or it does not
/// fit in an `i64`.
pub open spec fn spec_number(s: Seq<char>, pos: int) -> Option<(int, int)> {
    let neg = 0 <= pos < s.len() && s[pos] == '-';
    let start = if neg {
        pos + 1
    } else {
        pos
    };
    let end = digit_run_end(s, start);
    let v = if neg {
        -digits_value(s, start, end)
    } else {
        digits_value(s, start, end)
    };
    if end > start && i64::MIN <= v <= i64::MAX {
        Some((v, end))
    } else {
        None
    }
}

proof fn lemma_digits_nonneg(s: Seq<char>, a: int, b: int)
    requires
        forall|i: int| a <= i < b ==> is_digit(#[trigger] s[i]),
    ensures
        0 <= digits_value(s, a, b),
    decreases b - a,
{
    if a < b {
        lemma_digits_nonneg(s, a, b - 1);
    }
}

proof fn lemma_digit_run(s: Seq<char>, pos: int, k: int)
    requires
        0 <= pos <= k <= s.len(),
        forall|i: int| pos <= i < k ==> is_digit(#[trigger] s[i]),
        k < s.len() ==> !is_digit(s[k]),
    ensures
        digit_run_end(s, pos) == k,
    decreases k - pos,
{
    if pos < k {
        lemma_digit_run(s, pos + 1, k);
    }
}

/// Reads the integer literal at `pos`.
pub fn number_literal(s: &Vec<char>, pos: usize) -> (r: Result<(i64, usize), Failure>)
    requires
        pos <= s@.len(),
    ensures
        match r {
            Ok((v, end)) => spec_number(s@, pos as int) == Some((v as int, end as int)) && pos < end
                <= s@.len(),
            Err(_) => spec_number(s@, pos as int) is None,
        },
{
    let neg = pos < s.len() && s[pos] == '-';
    let start = if neg {
        pos + 1
    } else {
        pos
    };
    let mut e = start;
    let mut acc: i128 = 0;
    let mut too_big = false;
    while e < s.len() && '0' <= s[e] && s[e] <= '9'
        invariant
            start <= e <= s@.len(),
            forall|i: int| start <= i < e ==> is_digit(#[trigger] s@[i]),
            !too_big ==> acc == digits_value(s@, start as int, e as int),
            !too_big ==> 0 <= acc <= 0x8000_0000_0000_0000,
            too_big ==> digits_value(s@, start as int, e as int) > 0x8000_0000_0000_0000,
        decreases s@.len() - e,
    {
        let d = (s[e] as u32 - '0' as u32) as i128;
        proof {
            lemma_digits_nonneg(s@, start as int, e as int);
        }
        if !too_big {
            acc = acc * 10 + d;
            if acc > 0x8000_0000_0000_0000 {
                too_big = true;
            }
        }
        e = e + 1;
    }
    proof {
        lemma_digit_run(s@, start as int, e as int);
        lemma_digits_nonneg(s@, start as int, e as int);
    }
    if e == start {
        return Err(fail(pos, "expected a number"));
    }
    if too_big {
        return Err(fail(pos, "number out of range"));
    }
    if neg {
        Ok((-(acc as i128) as i64, e))
    } else {
        if acc > 0x7fff_ffff_ffff_ffff {
            return Err(fail(pos, "number out of range"));
        }
        Ok((acc as i64, e))
    }
}

/// Whether the characters from `pos` spell `word`.
fn at_word(s: &Vec<char>, pos: usize, word: &str) -> (r: bool)
    requires
        pos <= s@.len(),
    ensures
        r == (pos + word@.len() <= s@.len() && s@.subrange(pos as int, pos + word@.len()) == word@),
{
    let w = chars_of(word);
    let n = s.len();
    if w.len() > n - pos {
        return false;
    }
    let mut i: usize = 0;
    while i < w.len()
        invariant
            w@ == word@,
            n == s@.len(),
            pos + w@.len() <= s@.len(),
            i <= w@.len(),
            forall|j: int| 0 <= j < i ==> s@[pos + j] == w@[j],
        decreases w@.len() - i,
    {
        assert(pos + i < s@.len());
        if s[pos + i] != w[i] {
            assert(s@.subrange(pos as int, pos + word@.len())[i as int] != word@[i as int]);
            return false;
        }
        i = i + 1;
    }
    assert(s@.subrange(pos as int, pos + word@.len()) =~= word@);
    true
}

/// Reads `true` or `false` at `pos`.
pub fn bool_literal(s: &Vec<char>, pos: usize) -> (r: Result<(bool, usize), Failure>)
    requires
        pos <= s@.len(),
    ensures
        match r {
            Ok((b, end)) => pos < end <= s@.len() && s@.subrange(pos as int, end as int) == (if b {
                "true"@
            } else {
                "false"@
            }),
            Err(_) => !(pos + 4 <= s@.len() && s@.subrange(pos as int, pos + 4) == "true"@) && !(pos
                + 5 <= s@.len() && s@.subrange(pos as int, pos + 5) == "false"@),
        },
{
    proof {
        reveal_strlit("true");
        reveal_strlit("false");
    }
    let _n = s.len();
    if at_word(s, pos, "true") {
        Ok((true, pos + 4))
    } else if at_word(s, pos, "false") {
        Ok((false, pos + 5))
    } else {
        Err(fail(pos, "expected a boolean"))
    }
}

fn expect(s: &Vec<char>, pos: usize, c: char, what: &str) -> (r: Result<usize, Failure>)
    requires
        pos <= s@.len(),
    ensures
        match r {
            Ok(e) => e == pos + 1 && pos < s@.len() && s@[pos as int] == c,
            Err(_) => !(pos < s@.len() && s@[pos as int] == c),
        },
{
    if pos < s.len() && s[pos] == c {
        Ok(pos + 1)
    } else {
        Err(fail(pos, what))
    }
}

/// Whether the characters from `p` spell `w`.
pub open spec fn has_word(s: Seq<char>, p: int, w: Seq<char>) -> bool {
    0 <= p && p + w.len() <= s.len() && s.subrange(p, p + w.len()) == w
}

/// The value at `p` and the position after it: a boolean, number,
/// string, array or block; `None` where there is none.
pub open spec fn spec_value(s: Seq<char>, p: int) -> Option<(ValueModel, int)>
    decreases s.len() - p, 0nat,
{
    if p < 0 || p >= s.len() {
        None
    } else {
        let c = s[p];
        if c == 't' || c == 'f' {
            if has_word(s, p, "true"@) {
                Some((ValueModel::Bool(true), p + 4))
            } else if has_word(s, p, "false"@) {
                Some((ValueModel::Bool(false), p + 5))
            } else {
                None
            }
        } else if c == '-' || ('0' <= c && c <= '9') {
            match spec_number(s, p) {
                Some((v, e)) => Some((ValueModel::Num(v), e)),
                None => None,
            }
        } else if c == '"' {
            match spec_string_literal(s, p) {
                Some((v, e)) => Some((ValueModel::Str(v), e)),
                None => None,
            }
        } else if c == '[' || c == '{' {
            let q = ws_end(s, p + 1);
            if q <= p || q > s.len() {
                None
            } else if c == '[' {
                match spec_array(s, q) {
                    Some((vs, e)) => Some((ValueModel::Arr(vs), e)),
                    None => None,
                }
            } else {
                match spec_block(s, q) {
                    Some((ps, e)) => Some((ValueModel::Blk(ps), e)),
                    None => None,
                }
            }
        } else {
            None
        }
    }
}

/// The rest of an array whose next element (or closing `]`) stands at
/// `q`: its elements and the position after `]`.
pub open spec fn spec_array(s: Seq<char>, q: int) -> Option<(Seq<ValueModel>, int)>
    decreases s.len() - q, 1nat,
{
    if q < 0 || q > s.len() {
        None
    } else if q < s.len() && s[q] == ']' {
        Some((Seq::empty(), q + 1))
    } else {
        match spec_value(s, q) {
            None => None,
            Some((v, e)) => {
                let r = ws_end(s, e);
                if 0 <= r < s.len() && s[r] == ',' {
                    let q2 = ws_end(s, r + 1);
                    if q2 <= q || q2 > s.len() {
                        None
                    } else {
                        match spec_array(s, q2) {
                            Some((vs, end)) => Some((seq![v] + vs, end)),
                            None => None,
                        }
                    }
                } else if 0 <= r < s.len() && s[r] == ']' {
                    Some((seq![v], r + 1))
                } else {
                    None
                }
            },
        }
    }
}

/// The rest of a block whose next `key = value` pair (or closing `}`)
/// stands at `q`: its pairs and the position after `}`.
pub open spec fn spec_block(s: Seq<char>, q: int) -> Option<(Seq<(Seq<char>, ValueModel)>, int)>
    decreases s.len() - q, 1nat,
{
    if q < 0 || q > s.len() {
        None
    } else if q < s.len() && s[q] == '}' {
        Some((Seq::empty(), q + 1))
    } else {
        match spec_identifier(s, q) {
            None => None,
            Some((k, e1)) => {
                let r1 = ws_end(s, e1);
                if 0 <= r1 < s.len() && s[r1] == '=' {
                    let r2 = ws_end(s, r1 + 1);
                    if r2 <= q || r2 > s.len() {
                        None
                    } else {
                        match spec_value(s, r2) {
                            None => None,
                            Some((v, e2)) => {
                                let n2 = ws_end(s, e2);
                                if n2 <= q || n2 > s.len() {
                                    None
                                } else {
                                    match spec_block(s, n2) {
                                        Some((ps, end)) => Some((seq![(k, v)] + ps, end)),
                                        None => None,
                                    }
                                }
                            },
                        }
                    }
                } else {
                    None
                }
            },
        }
    }
}

/// Reads a value at `pos`: a boolean, number, string, array or block.
pub fn parse_value(s: &Vec<char>, pos: usize) -> (r: Result<(AstValue, usize), Failure>)
    requires
        pos <= s@.len(),
    ensures
        match r {
            Ok((v, end)) => spec_value(s@, pos as int) == Some((value_view(v), end as int)) && pos < end
                <= s@.len(),
            Err(_) => spec_value(s@, pos as int) is None,
        },
    decreases s@.len() - pos, 1nat,
{
    if pos >= s.len() {
        return Err(fail(pos, "expected a value"));
    }
    let c = s[pos];
    proof {
        reveal_strlit("true");
        reveal_strlit("false");
    }
    if c == 't' || c == 'f' {
        match bool_literal(s, pos) {
            Ok((b, e)) => {
                proof {
                    if !b {
                        assert(s@.subrange(pos as int, pos + 5)[0] == 'f');
                        assert(!has_word(s@, pos as int, "true"@)) by {
                            if has_word(s@, pos as int, "true"@) {
                                assert(s@.subrange(pos as int, pos + 4)[0] == 't');
                            }
                        }
                    }
                }
                Ok((AstValue::Bool(b), e))
            },
            Err(f) => Err(f),
        }
    } else if c == '-' || ('0' <= c && c <= '9') {
        match number_literal(s, pos) {
            Ok((v, e)) => Ok((AstValue::Number(v), e)),
            Err(f) => Err(f),
        }
    } else if c == '"' {
        match string_literal(s, pos) {
            Ok((v, e)) => Ok((AstValue::String(v), e)),
            Err(f) => Err(f),
        }
    } else if c == '[' {
        match parse_array(s, pos) {
            Ok((v, e)) => {
                proof {
                    lemma_array_view(v);
                }
                Ok((AstValue::Array(v), e))
            },
            Err(f) => Err(f),
        }
    } else if c == '{' {
        match parse_block(s, pos) {
            Ok((v, e)) => {
                proof {
                    lemma_block_view(v);
                }
                Ok((AstValue::Block(v), e))
            },
            Err(f) => Err(f),
        }
    } else {
        Err(fail(pos, "expected a value"))
    }
}

/// Reads an array `[v, v, ...]` at `pos`, which holds `[`.
pub fn parse_array(s: &Vec<char>, pos: usize) -> (r: Result<(Vec<AstValue>, usize), Failure>)
    requires
        pos < s@.len(),
        s@[pos as int] == '[',
    ensures
        match r {
            Ok((v, end)) => spec_value(s@, pos as int) == Some((ValueModel::Arr(vals_view(v@)), end as int))
                && pos < end <= s@.len(),
            Err(_) => spec_value(s@, pos as int) is None,
        },
    decreases s@.len() - pos, 0nat,
{
    let mut items: Vec<AstValue> = Vec::new();
    let _n = s.len();
    let mut p = skip_ws(s, pos + 1);
    proof {
        match spec_array(s@, p as int) {
            Some((vs, end)) => {
                assert(vals_view(items@) + vs =~= vs);
            },
            None => {},
        }
    }
    loop
        invariant
            pos < p <= s@.len(),
            s@[pos as int] == '[',
            spec_value(s@, pos as int) == match spec_array(s@, p as int) {
                Some((vs, end)) => Some((ValueModel::Arr(vals_view(items@) + vs), end)),
                None => None,
            },
        decreases s@.len() - p,
    {
        let ghost iv = vals_view(items@);
        if p < s.len() && s[p] == ']' {
            assert(iv + Seq::<ValueModel>::empty() =~= iv);
            return Ok((items, p + 1));
        }
        let (v, e) = match parse_value(s, p) {
            Ok(x) => x,
            Err(f) => {
                return Err(f);
            },
        };
        let ghost vv = value_view(v);
        items.push(v);
        assert(vals_view(items@) =~= iv.push(vv));
        let q = skip_ws(s, e);
        if q < s.len() && s[q] == ',' {
            let next = skip_ws(s, q + 1);
            proof {
                match spec_array(s@, next as int) {
                    Some((vs, end)) => {
                        assert(iv + (seq![vv] + vs) =~= iv.push(vv) + vs);
                    },
                    None => {},
                }
            }
            p = next;
        } else if q < s.len() && s[q] == ']' {
            assert(iv + seq![vv] =~= iv.push(vv));
            return Ok((items, q + 1));
        } else {
            return Err(fail(q, "expected ',' or ']'"));
        }
    }
}

/// Reads a block `{ key = value ... }` at `pos`, which holds `{`.
pub fn parse_block(s: &Vec<char>, pos: usize) -> (r: Result<(Vec<(String, AstValue)>, usize), Failure>)
    requires
        pos < s@.len(),
        s@[pos as int] == '{',
    ensures
        match r {
            Ok((v, end)) => spec_value(s@, pos as int) == Some((ValueModel::Blk(fields_view(v@)), end as int))
                && pos < end <= s@.len(),
            Err(_) => spec_value(s@, pos as int) is None,
        },
    decreases s@.len() - pos, 0nat,
{
    let mut pairs: Vec<(String, AstValue)> = Vec::new();
    let _n = s.len();
    let mut p = skip_ws(s, pos + 1);
    proof {
        match spec_block(s@, p as int) {
            Some((ps, end)) => {
                assert(fields_view(pairs@) + ps =~= ps);
            },
            None => {},
        }
    }
    loop
        invariant
            pos < p <= s@.len(),
            s@[pos as int] == '{',
            spec_value(s@, pos as int) == match spec_block(s@, p as int) {
                Some((ps, end)) => Some((ValueModel::Blk(fields_view(pairs@) + ps), end)),
                None => None,
            },
        decreases s@.len() - p,
    {
        let ghost pv = fields_view(pairs@);
        if p < s.len() && s[p] == '}' {
            assert(pv + Seq::<(Seq<char>, ValueModel)>::empty() =~= pv);
            return Ok((pairs, p + 1));
        }
        let (key, e) = match identifier(s, p) {
            Ok(x) => x,
            Err(f) => {
                return Err(f);
            },
        };
        let q = skip_ws(s, e);
        let q = match expect(s, q, '=', "expected '='") {
            Ok(q) => q,
            Err(f) => {
                return Err(f);
            },
        };
        let q = skip_ws(s, q);
        let (v, e) = match parse_value(s, q) {
            Ok(x) => x,
            Err(f) => {
                return Err(f);
            },
        };
        let ghost kv = (key@, value_view(v));
        pairs.push((key, v));
        assert(fields_view(pairs@) =~= pv.push(kv));
        let next = skip_ws(s, e);
        proof {
            match spec_block(s@, next as int) {
                Some((ps, end)) => {
                    assert(pv + (seq![kv] + ps) =~= pv.push(kv) + ps);
                },
                None => {},
            }
        }
        p = next;
    }
}

/// The rest of a string array from `p`, after `[` or a `,` and the
/// whitespace that follows: its strings and the position after `]`.
pub open spec fn spec_array_rest(s: Seq<char>, p: int) -> Option<(Seq<Seq<char>>, int)>
    decreases s.len() - p,
{
    if 0 <= p < s.len() && s[p] == ']' {
        Some((Seq::empty(), p + 1))
    } else {
        match crate::lexer::spec_string_literal(s, p) {
            None => None,
            Some((v, e)) => {
                let q = crate::lexer::ws_end(s, e);
                if 0 <= q < s.len() && s[q] == ',' {
                    let next = crate::lexer::ws_end(s, q + 1);
                    if next <= p || next > s.len() {
                        None
                    } else {
                        match spec_array_rest(s, next) {
                            Some((vs, end)) => Some((seq![v] + vs, end)),
                            None => None,
                        }
                    }
                } else if 0 <= q < s.len() && s[q] == ']' {
                    Some((seq![v], q + 1))
                } else {
                    None
                }
            },
        }
    }
}

/// The string array at `pos`: `[`, string literals separated by commas
/// with an optional trailing comma, `]`, with whitespace between tokens.
pub open spec fn spec_string_array(s: Seq<char>, pos: int) -> Option<(Seq<Seq<char>>, int)> {
    if 0 <= pos < s.len() && s[pos] == '[' {
        spec_array_rest(s, crate::lexer::ws_end(s, pos + 1))
    } else {
        None
    }
}

/// Reads an array of string literals at `pos`.
pub fn string_array(s: &Vec<char>, pos: usize) -> (r: Result<(Vec<String>, usize), Failure>)
    requires
        pos <= s@.len(),
    ensures
        match r {
            Ok((v, end)) => spec_string_array(s@, pos as int) == Some(
                (v@.map_values(|x: String| x@), end as int),
            ) && pos < end <= s@.len(),
            Err(_) => spec_string_array(s@, pos as int) is None,
        },
{
    let mut p = match expect(s, pos, '[', "expected '['") {
        Ok(p) => skip_ws(s, p),
        Err(f) => {
            return Err(f);
        },
    };
    let mut items: Vec<String> = Vec::new();
    assert(items@.map_values(|x: String| x@) =~= Seq::<Seq<char>>::empty());
    loop
        invariant
            pos < p <= s@.len(),
            s@[pos as int] == '[',
            spec_string_array(s@, pos as int) == match spec_array_rest(s@, p as int) {
                Some((vs, end)) => Some((items@.map_values(|x: String| x@) + vs, end)),
                None => None,
            },
        decreases s@.len() - p,
    {
        let ghost iv = items@.map_values(|x: String| x@);
        if p < s.len() && s[p] == ']' {
            assert(iv + Seq::<Seq<char>>::empty() =~= iv);
            return Ok((items, p + 1));
        }
        let (v, e) = match string_literal(s, p) {
            Ok(x) => x,
            Err(f) => {
                return Err(f);
            },
        };
        let ghost vv = v@;
        items.push(v);
        assert(items@.map_values(|x: String| x@) =~= iv.push(vv));
        let q = skip_ws(s, e);
        if q < s.len() && s[q] == ',' {
            let next = skip_ws(s, q + 1);
            proof {
                match spec_array_rest(s@, next as int) {
                    Some((vs, end)) => {
                        assert(iv + (seq![vv] + vs) =~= iv.push(vv) + vs);
                    },
                    None => {},
                }
            }
            p = next;
        } else if q < s.len() && s[q] == ']' {
            assert(iv + seq![vv] =~= iv.push(vv));
            return Ok((items, q + 1));
        } else {
            return Err(fail(q, "expected ',' or ']'"));
        }
    }
}

proof fn lemma_top_keywords_distinct()
    ensures
        "variable"@ != "beam"@,
        "variable"@ != "default"@,
        "beam"@ != "default"@,
{
    reveal_strlit("variable");
    reveal_strlit("beam");
    reveal_strlit("default");
    assert("variable"@.len() == 8);
    assert("beam"@.len() == 4);
    assert("default"@.len() == 7);
}

/// The string of `= "string"` that follows `p`, and the position after it.
pub open spec fn spec_assigned_string(s: Seq<char>, p: int) -> Option<(Seq<char>, int)> {
    let r1 = ws_end(s, p);
    if 0 <= r1 < s.len() && s[r1] == '=' {
        spec_string_literal(s, ws_end(s, r1 + 1))
    } else {
        None
    }
}

/// The strings of `= [strings]` that follows `p`, and the position after it.
pub open spec fn spec_assigned_array(s: Seq<char>, p: int) -> Option<(Seq<Seq<char>>, int)> {
    let r1 = ws_end(s, p);
    if 0 <= r1 < s.len() && s[r1] == '=' {
        spec_string_array(s, ws_end(s, r1 + 1))
    } else {
        None
    }
}

/// The pairs of the block that follows `p`, and the position after it.
pub open spec fn spec_following_block(s: Seq<char>, p: int) -> Option<(Seq<(Seq<char>, ValueModel)>, int)> {
    let q = ws_end(s, p);
    if 0 <= q < s.len() && s[q] == '{' {
        match spec_value(s, q) {
            Some((ValueModel::Blk(ps), e)) => Some((ps, e)),
            _ => None,
        }
    } else {
        None
    }
}

/// The rest of an `env` block from `q`: its pairs and the position after `}`.
pub open spec fn spec_env_rest(s: Seq<char>, q: int) -> Option<(Seq<(Seq<char>, Seq<char>)>, int)>
    decreases s.len() - q,
{
    if q < 0 || q > s.len() {
        None
    } else if q < s.len() && s[q] == '}' {
        Some((Seq::empty(), q + 1))
    } else {
        match spec_identifier(s, q) {
            None => None,
            Some((k, e)) => match spec_assigned_string(s, e) {
                None => None,
                Some((v, e2)) => {
                    let n = ws_end(s, e2);
                    if n <= q || n > s.len() {
                        None
                    } else {
                        match spec_env_rest(s, n) {
                            Some((ps, end)) => Some((seq![(k, v)] + ps, end)),
                            None => None,
                        }
                    }
                },
            },
        }
    }
}

/// The pairs of the `{ NAME = "value" ... }` that follows `p`.
pub open spec fn spec_env_block(s: Seq<char>, p: int) -> Option<(Seq<(Seq<char>, Seq<char>)>, int)> {
    let q = ws_end(s, p);
    if 0 <= q < s.len() && s[q] == '{' {
        spec_env_rest(s, ws_end(s, q + 1))
    } else {
        None
    }
}

/// The string that a block's last pair with `key` holds: empty where that
/// pair holds no string or there is none.
pub open spec fn block_str(ps: Seq<(Seq<char>, ValueModel)>, key: Seq<char>) -> Seq<char>
    decreases ps.len(),
{
    if ps.len() == 0 {
        Seq::empty()
    } else if ps.last().0 == key {
        match ps.last().1 {
            ValueModel::Str(v) => v,
            _ => Seq::empty(),
        }
    } else {
        block_str(ps.drop_last(), key)
    }
}

/// The condition of the `{ <condition> }` that follows `p`.
pub open spec fn spec_condition(s: Seq<char>, p: int) -> Option<(CondModel, int)> {
    let q = ws_end(s, p);
    if !(0 <= q < s.len() && s[q] == '{') {
        None
    } else {
        match spec_identifier(s, ws_end(s, q + 1)) {
            None => None,
            Some((kind, e)) => {
                let inner: Option<(CondModel, int)> = if kind == "file_exists"@ {
                    match spec_assigned_string(s, e) {
                        Some((v, e2)) => Some((CondModel::FileExists(v), e2)),
                        None => None,
                    }
                } else if kind == "env_set"@ {
                    match spec_assigned_string(s, e) {
                        Some((v, e2)) => Some((CondModel::EnvSet(v), e2)),
                        None => None,
                    }
                } else if kind == "env_equals"@ {
                    match spec_following_block(s, e) {
                        Some((ps, e2)) => Some(
                            (CondModel::EnvEquals(block_str(ps, "name"@), block_str(ps, "value"@)), e2),
                        ),
                        None => None,
                    }
                } else {
                    None
                };
                match inner {
                    None => None,
                    Some((c, e2)) => {
                        let r = ws_end(s, e2);
                        if 0 <= r < s.len() && s[r] == '}' {
                            Some((c, r + 1))
                        } else {
                            None
                        }
                    },
                }
            },
        }
    }
}

/// The beam item at `p` and the position after it.
pub open spec fn spec_beam_item(s: Seq<char>, p: int) -> Option<(ItemModel, int)> {
    match spec_identifier(s, p) {
        None => None,
        Some((k, e)) => if k == "description"@ {
            match spec_assigned_string(s, e) {
                Some((v, e2)) => Some((ItemModel::Description(v), e2)),
                None => None,
            }
        } else if k == "depends_on"@ {
            match spec_assigned_array(s, e) {
                Some((v, e2)) => Some((ItemModel::DependsOn(v), e2)),
                None => None,
            }
        } else if k == "inputs"@ {
            match spec_assigned_array(s, e) {
                Some((v, e2)) => Some((ItemModel::Inputs(v), e2)),
                None => None,
            }
        } else if k == "outputs"@ {
            match spec_assigned_array(s, e) {
                Some((v, e2)) => Some((ItemModel::Outputs(v), e2)),
                None => None,
            }
        } else if k == "env"@ {
            match spec_env_block(s, e) {
                Some((v, e2)) => Some((ItemModel::Env(v), e2)),
                None => None,
            }
        } else if k == "condition"@ {
            match spec_condition(s, e) {
                Some((c, e2)) => Some((ItemModel::Condition(c), e2)),
                None => None,
            }
        } else if k == "pre_hook"@ {
            match spec_following_block(s, e) {
                Some((ps, e2)) => Some((ItemModel::PreHook(block_model(ps, "fail_on_error"@)), e2)),
                None => None,
            }
        } else if k == "post_hook"@ {
            match spec_following_block(s, e) {
                Some((ps, e2)) => Some((ItemModel::PostHook(block_model(ps, "fail_on_error"@)), e2)),
                None => None,
            }
        } else if k == "run"@ {
            match spec_following_block(s, e) {
                Some((ps, e2)) => Some((ItemModel::Run(block_model(ps, "fail_fast"@)), e2)),
                None => None,
            }
        } else {
            None
        },
    }
}

/// The rest of a beam's body from `q`: its items and the position after `}`.
pub open spec fn spec_beam_items(s: Seq<char>, q: int) -> Option<(Seq<ItemModel>, int)>
    decreases s.len() - q,
{
    if q < 0 || q > s.len() {
        None
    } else if q < s.len() && s[q] == '}' {
        Some((Seq::empty(), q + 1))
    } else {
        match spec_beam_item(s, q) {
            None => None,
            Some((it, e)) => {
                let n = ws_end(s, e);
                if n <= q || n > s.len() {
                    None
                } else {
                    match spec_beam_items(s, n) {
                        Some((its, end)) => Some((seq![it] + its, end)),
                        None => None,
                    }
                }
            },
        }
    }
}

/// Where the keyword `w` at `p` ends.
pub open spec fn spec_keyword_end(s: Seq<char>, p: int, w: Seq<char>) -> Option<int> {
    match spec_identifier(s, p) {
        Some((id, e)) => if id == w {
            Some(e)
        } else {
            None
        },
        None => None,
    }
}

/// The name and items of the `"name" { ... }` of a beam that follows `p`.
pub open spec fn spec_beam_body(s: Seq<char>, p: int) -> Option<(Seq<char>, Seq<ItemModel>, int)> {
    match spec_string_literal(s, ws_end(s, p)) {
        None => None,
        Some((name, e)) => {
            let r = ws_end(s, e);
            if 0 <= r < s.len() && s[r] == '{' {
                match spec_beam_items(s, ws_end(s, r + 1)) {
                    Some((its, end)) => Some((name, its, end)),
                    None => None,
                }
            } else {
                None
            }
        },
    }
}

/// The name and pairs of the `"name" { ... }` of a variable that follows `p`.
pub open spec fn spec_variable_body(s: Seq<char>, p: int) -> Option<(Seq<char>, Seq<(Seq<char>, ValueModel)>, int)> {
    match spec_string_literal(s, ws_end(s, p)) {
        None => None,
        Some((name, e)) => match spec_following_block(s, e) {
            Some((ps, end)) => Some((name, ps, end)),
            None => None,
        },
    }
}

/// The top-level item at `p` and the position after it.
pub open spec fn spec_item(s: Seq<char>, p: int) -> Option<(TopModel, int)> {
    match spec_identifier(s, p) {
        None => None,
        Some((k, e)) => if k == "variable"@ {
            match spec_variable_body(s, e) {
                Some((n, ps, end)) => Some((TopModel::Variable(n, ps), end)),
                None => None,
            }
        } else if k == "beam"@ {
            match spec_beam_body(s, e) {
                Some((n, its, end)) => Some((TopModel::Beam(n, its), end)),
                None => None,
            }
        } else if k == "default"@ {
            match spec_assigned_string(s, e) {
                Some((n, end)) => Some((TopModel::Default(n), end)),
                None => None,
            }
        } else {
            None
        },
    }
}

/// The top-level items of the text from `p`, where it is a sequence of them.
pub open spec fn spec_file_items(s: Seq<char>, p: int) -> Option<Seq<TopModel>>
    decreases s.len() - p,
{
    if p < 0 || p > s.len() {
        None
    } else if p == s.len() {
        Some(Seq::empty())
    } else {
        match spec_item(s, p) {
            None => None,
            Some((t, e)) => {
                let n = ws_end(s, e);
                if n <= p || n > s.len() {
                    None
                } else {
                    match spec_file_items(s, n) {
                        Some(ts) => Some(seq![t] + ts),
                        None => None,
                    }
                }
            },
        }
    }
}

/// The top-level items of a Beamfile's text, where it is one: whitespace
/// and comments, then items.
pub open spec fn beamfile_items(s: Seq<char>) -> Option<Seq<TopModel>> {
    spec_file_items(s, ws_end(s, 0))
}

/// Whether the text is a Beamfile.
pub open spec fn is_beamfile(s: Seq<char>) -> bool {
    beamfile_items(s) is Some
}

/// Reads `= <string>` after a key, with the whitespace around `=`.
fn assigned_string(s: &Vec<char>, pos: usize) -> (r: Result<(String, usize), Failure>)
    requires
        pos <= s@.len(),
    ensures
        match r {
            Ok((v, end)) => spec_assigned_string(s@, pos as int) == Some((v@, end as int)) && pos < end <= s@.len(),
            Err(_) => spec_assigned_string(s@, pos as int) is None,
        },
{
    let p = skip_ws(s, pos);
    let p = match expect(s, p, '=', "expected '='") {
        Ok(p) => p,
        Err(f) => {
            return Err(f);
        },
    };
    let p = skip_ws(s, p);
    string_literal(s, p)
}

/// Reads `= [<string>, ...]` after a key.
fn assigned_string_array(s: &Vec<char>, pos: usize) -> (r: Result<(Vec<String>, usize), Failure>)
    requires
        pos <= s@.len(),
    ensures
        match r {
            Ok((v, end)) => spec_assigned_array(s@, pos as int) == Some((strs_view(v@), end as int)) && pos < end
                <= s@.len(),
            Err(_) => spec_assigned_array(s@, pos as int) is None,
        },
{
    let p = skip_ws(s, pos);
    let p = match expect(s, p, '=', "expected '='") {
        Ok(p) => p,
        Err(f) => {
            return Err(f);
        },
    };
    let p = skip_ws(s, p);
    string_array(s, p)
}

/// Reads the block that follows a key, after whitespace.
fn following_block(s: &Vec<char>, pos: usize) -> (r: Result<(Vec<(String, AstValue)>, usize), Failure>)
    requires
        pos <= s@.len(),
    ensures
        match r {
            Ok((v, end)) => spec_following_block(s@, pos as int) == Some((fields_view(v@), end as int)) && pos < end
                <= s@.len(),
            Err(_) => spec_following_block(s@, pos as int) is None,
        },
{
    let p = skip_ws(s, pos);
    if p < s.len() && s[p] == '{' {
        parse_block(s, p)
    } else {
        Err(fail(p, "expected '{'"))
    }
}

/// Reads `{ NAME = "value" ... }` after `env`.
fn env_block(s: &Vec<char>, pos: usize) -> (r: Result<(Vec<(String, String)>, usize), Failure>)
    requires
        pos <= s@.len(),
    ensures
        match r {
            Ok((v, end)) => spec_env_block(s@, pos as int) == Some((str_pairs_view(v@), end as int)) && pos < end
                <= s@.len(),
            Err(_) => spec_env_block(s@, pos as int) is None,
        },
{
    let open_at = skip_ws(s, pos);
    let mut p = match expect(s, open_at, '{', "expected '{'") {
        Ok(p) => skip_ws(s, p),
        Err(f) => {
            return Err(f);
        },
    };
    let mut pairs: Vec<(String, String)> = Vec::new();
    proof {
        match spec_env_rest(s@, p as int) {
            Some((ps, end)) => {
                assert(str_pairs_view(pairs@) + ps =~= ps);
            },
            None => {},
        }
    }
    loop
        invariant
            pos < p <= s@.len(),
            spec_env_block(s@, pos as int) == match spec_env_rest(s@, p as int) {
                Some((ps, end)) => Some((str_pairs_view(pairs@) + ps, end)),
                None => None,
            },
        decreases s@.len() - p,
    {
        let ghost pv = str_pairs_view(pairs@);
        if p < s.len() && s[p] == '}' {
            assert(pv + Seq::<(Seq<char>, Seq<char>)>::empty() =~= pv);
            return Ok((pairs, p + 1));
        }
        let (key, e) = match identifier(s, p) {
            Ok(x) => x,
            Err(f) => {
                return Err(f);
            },
        };
        let (value, e) = match assigned_string(s, e) {
            Ok(x) => x,
            Err(f) => {
                return Err(f);
            },
        };
        let ghost kv = (key@, value@);
        pairs.push((key, value));
        assert(str_pairs_view(pairs@) =~= pv.push(kv));
        let next = skip_ws(s, e);
        proof {
            match spec_env_rest(s@, next as int) {
                Some((ps, end)) => {
                    assert(pv + (seq![kv] + ps) =~= pv.push(kv) + ps);
                },
                None => {},
            }
        }
        p = next;
    }
}

/// The string that a block's last pair with `key` holds, or the empty string.
fn block_string(block: &Vec<(String, AstValue)>, key: &str) -> (r: String)
    ensures
        r@ == block_str(fields_view(block@), key@),
{
    let mut found = String::new();
    let mut i: usize = 0;
    while i < block.len()
        invariant
            i <= block@.len(),
            found@ == block_str(fields_view(block@.take(i as int)), key@),
        decreases block@.len() - i,
    {
        proof {
            assert(fields_view(block@.take(i + 1)).drop_last() =~= fields_view(block@.take(i as int)));
            assert(fields_view(block@.take(i + 1)).last() == (block@[i as int].0@, value_view(block@[i as int].1)));
        }
        if str_eq(block[i].0.as_str(), key) {
            match &block[i].1 {
                AstValue::String(v) => {
                    found = v.clone();
                },
                _ => {
                    found = String::new();
                },
            }
        }
        i = i + 1;
    }
    assert(block@.take(i as int) =~= block@);
    found
}

/// Reads `{ <condition> }` after `condition`.
fn condition_block(s: &Vec<char>, pos: usize) -> (r: Result<(AstCondition, usize), Failure>)
    requires
        pos <= s@.len(),
    ensures
        match r {
            Ok((c, end)) => spec_condition(s@, pos as int) == Some((cond_view(c), end as int)) && pos < end <= s@.len(),
            Err(_) => spec_condition(s@, pos as int) is None,
        },
{
    let open_at = skip_ws(s, pos);
    let p = match expect(s, open_at, '{', "expected '{'") {
        Ok(p) => skip_ws(s, p),
        Err(f) => {
            return Err(f);
        },
    };
    let (kind, e) = match identifier(s, p) {
        Ok(x) => x,
        Err(f) => {
            return Err(f);
        },
    };
    let (cond, e) = if str_eq(kind.as_str(), "file_exists") {
        match assigned_string(s, e) {
            Ok((v, e)) => (AstCondition::FileExists(v), e),
            Err(f) => {
                return Err(f);
            },
        }
    } else if str_eq(kind.as_str(), "env_set") {
        match assigned_string(s, e) {
            Ok((v, e)) => (AstCondition::EnvSet(v), e),
            Err(f) => {
                return Err(f);
            },
        }
    } else if str_eq(kind.as_str(), "env_equals") {
        match following_block(s, e) {
            Ok((block, e)) => {
                let name = block_string(&block, "name");
                let value = block_string(&block, "value");
                (AstCondition::EnvEquals { name, value }, e)
            },
            Err(f) => {
                return Err(f);
            },
        }
    } else {
        return Err(fail(p, "unknown condition"));
    };
    let q = skip_ws(s, e);
    match expect(s, q, '}', "expected '}'") {
        Ok(q) => Ok((cond, q)),
        Err(f) => Err(f),
    }
}

/// Reads one item of a beam's body at `pos`, which holds an identifier.
fn beam_item(s: &Vec<char>, pos: usize) -> (r: Result<(AstBeamItem, usize), Failure>)
    requires
        pos <= s@.len(),
    ensures
        match r {
            Ok((it, end)) => spec_beam_item(s@, pos as int) == Some((item_view(it), end as int)) && pos < end
                <= s@.len(),
            Err(_) => spec_beam_item(s@, pos as int) is None,
        },
{
    let (kw, e) = match identifier(s, pos) {
        Ok(x) => x,
        Err(f) => {
            return Err(f);
        },
    };
    let k = kw.as_str();
    if str_eq(k, "description") {
        match assigned_string(s, e) {
            Ok((v, e)) => Ok((AstBeamItem::Description(v), e)),
            Err(f) => Err(f),
        }
    } else if str_eq(k, "depends_on") {
        match assigned_string_array(s, e) {
            Ok((v, e)) => Ok((AstBeamItem::DependsOn(v), e)),
            Err(f) => Err(f),
        }
    } else if str_eq(k, "inputs") {
        match assigned_string_array(s, e) {
            Ok((v, e)) => Ok((AstBeamItem::Inputs(v), e)),
            Err(f) => Err(f),
        }
    } else if str_eq(k, "outputs") {
        match assigned_string_array(s, e) {
            Ok((v, e)) => Ok((AstBeamItem::Outputs(v), e)),
            Err(f) => Err(f),
        }
    } else if str_eq(k, "env") {
        match env_block(s, e) {
            Ok((v, e)) => Ok((AstBeamItem::Env(v), e)),
            Err(f) => Err(f),
        }
    } else if str_eq(k, "condition") {
        match condition_block(s, e) {
            Ok((v, e)) => Ok((AstBeamItem::Condition(v), e)),
            Err(f) => Err(f),
        }
    } else if str_eq(k, "pre_hook") {
        match following_block(s, e) {
            Ok((fields, e)) => Ok((AstBeamItem::PreHook(hook_body(&fields)), e)),
            Err(f) => Err(f),
        }
    } else if str_eq(k, "post_hook") {
        match following_block(s, e) {
            Ok((fields, e)) => Ok((AstBeamItem::PostHook(hook_body(&fields)), e)),
            Err(f) => Err(f),
        }
    } else if str_eq(k, "run") {
        match following_block(s, e) {
            Ok((fields, e)) => Ok((AstBeamItem::Run(run_body(&fields)), e)),
            Err(f) => Err(f),
        }
    } else {
        Err(fail(pos, "unknown beam item"))
    }
}

/// Reads `"name" { ... }` after the keyword `beam`.
fn beam_block_body(s: &Vec<char>, pos: usize) -> (r: Result<(AstBeam, usize), Failure>)
    requires
        pos <= s@.len(),
    ensures
        match r {
            Ok((b, end)) => spec_beam_body(s@, pos as int) == Some((b.name@, items_view(b.body@), end as int))
                && pos < end <= s@.len(),
            Err(_) => spec_beam_body(s@, pos as int) is None,
        },
{
    let p = skip_ws(s, pos);
    let (name, e) = match string_literal(s, p) {
        Ok(x) => x,
        Err(f) => {
            return Err(f);
        },
    };
    let q = skip_ws(s, e);
    let mut p = match expect(s, q, '{', "expected '{'") {
        Ok(q) => skip_ws(s, q),
        Err(f) => {
            return Err(f);
        },
    };
    let mut body: Vec<AstBeamItem> = Vec::new();
    proof {
        match spec_beam_items(s@, p as int) {
            Some((its, end)) => {
                assert(items_view(body@) + its =~= its);
            },
            None => {},
        }
    }
    loop
        invariant
            pos < p <= s@.len(),
            spec_beam_body(s@, pos as int) == match spec_beam_items(s@, p as int) {
                Some((its, end)) => Some((name@, items_view(body@) + its, end)),
                None => None,
            },
        decreases s@.len() - p,
    {
        let ghost bv = items_view(body@);
        if p < s.len() && s[p] == '}' {
            assert(bv + Seq::<ItemModel>::empty() =~= bv);
            return Ok((AstBeam { name, body }, p + 1));
        }
        let (item, e) = match beam_item(s, p) {
            Ok(x) => x,
            Err(f) => {
                return Err(f);
            },
        };
        let ghost iv = item_view(item);
        body.push(item);
        assert(items_view(body@) =~= bv.push(iv));
        let next = skip_ws(s, e);
        proof {
            match spec_beam_items(s@, next as int) {
                Some((its, end)) => {
                    assert(bv + (seq![iv] + its) =~= bv.push(iv) + its);
                },
                None => {},
            }
        }
        p = next;
    }
}

/// Reads `keyword` as the identifier at `pos`.
fn keyword(s: &Vec<char>, pos: usize, word: &str) -> (r: Result<usize, Failure>)
    requires
        pos <= s@.len(),
    ensures
        match r {
            Ok(end) => spec_keyword_end(s@, pos as int, word@) == Some(end as int) && pos < end <= s@.len(),
            Err(_) => spec_keyword_end(s@, pos as int, word@) is None,
        },
{
    match identifier(s, pos) {
        Ok((id, e)) => if str_eq(id.as_str(), word) {
            Ok(e)
        } else {
            Err(fail(pos, "unexpected keyword"))
        },
        Err(f) => Err(f),
    }
}

/// Reads `beam "name" { ... }` at `pos`.
pub fn beam_block(s: &Vec<char>, pos: usize) -> (r: Result<(AstBeam, usize), Failure>)
    requires
        pos <= s@.len(),
    ensures
        match r {
            Ok((b, end)) => (spec_keyword_end(s@, pos as int, "beam"@) matches Some(e) && spec_beam_body(s@, e)
                == Some((b.name@, items_view(b.body@), end as int))) && pos < end <= s@.len(),
            Err(_) => spec_keyword_end(s@, pos as int, "beam"@) is None || (spec_keyword_end(
                s@,
                pos as int,
                "beam"@,
            ) matches Some(e) && spec_beam_body(s@, e) is None),
        },
{
    match keyword(s, pos, "beam") {
        Ok(e) => beam_block_body(s, e),
        Err(f) => Err(f),
    }
}

/// Reads `variable "name" { ... }` at `pos`.
pub fn variable_block(s: &Vec<char>, pos: usize) -> (r: Result<(AstVariable, usize), Failure>)
    requires
        pos <= s@.len(),
    ensures
        match r {
            Ok((v, end)) => (spec_keyword_end(s@, pos as int, "variable"@) matches Some(e) && spec_variable_body(
                s@,
                e,
            ) == Some((v.name@, fields_view(v.body@), end as int))) && pos < end <= s@.len(),
            Err(_) => spec_keyword_end(s@, pos as int, "variable"@) is None || (spec_keyword_end(
                s@,
                pos as int,
                "variable"@,
            ) matches Some(e) && spec_variable_body(s@, e) is None),
        },
{
    let e = match keyword(s, pos, "variable") {
        Ok(e) => e,
        Err(f) => {
            return Err(f);
        },
    };
    let q = skip_ws(s, e);
    let (name, e2) = match string_literal(s, q) {
        Ok(x) => x,
        Err(f) => {
            return Err(f);
        },
    };
    match following_block(s, e2) {
        Ok((body, e3)) => Ok((AstVariable { name, body }, e3)),
        Err(f) => Err(f),
    }
}

/// Reads `default = "name"` at `pos`.
pub fn default_beam(s: &Vec<char>, pos: usize) -> (r: Result<(String, usize), Failure>)
    requires
        pos <= s@.len(),
    ensures
        match r {
            Ok((n, end)) => (spec_keyword_end(s@, pos as int, "default"@) matches Some(e) && spec_assigned_string(
                s@,
                e,
            ) == Some((n@, end as int))) && pos < end <= s@.len(),
            Err(_) => spec_keyword_end(s@, pos as int, "default"@) is None || (spec_keyword_end(
                s@,
                pos as int,
                "default"@,
            ) matches Some(e) && spec_assigned_string(s@, e) is None),
        },
{
    match keyword(s, pos, "default") {
        Ok(e) => assigned_string(s, e),
        Err(f) => Err(f),
    }
}

/// Reads a whole Beamfile's syntax tree.
pub fn beamfile(s: &Vec<char>) -> (r: Result<AstBeamfile, Failure>)
    ensures
        match r {
            Ok(ast) => beamfile_items(s@) == Some(tops_view(ast.items@)),
            Err(_) => beamfile_items(s@) is None,
        },
{
    let mut items: Vec<AstItem> = Vec::new();
    let mut p = skip_ws(s, 0);
    proof {
        lemma_top_keywords_distinct();
        match spec_file_items(s@, p as int) {
            Some(ts) => {
                assert(tops_view(items@) + ts =~= ts);
            },
            None => {},
        }
    }
    while p < s.len()
        invariant
            p <= s@.len(),
            beamfile_items(s@) == match spec_file_items(s@, p as int) {
                Some(ts) => Some(tops_view(items@) + ts),
                None => None,
            },
            "variable"@ != "beam"@,
            "variable"@ != "default"@,
            "beam"@ != "default"@,
        decreases s@.len() - p,
    {
        let ghost tv = tops_view(items@);
        let (kw, _) = match identifier(s, p) {
            Ok(x) => x,
            Err(f) => {
                return Err(f);
            },
        };
        let k = kw.as_str();
        let (item, e) = if str_eq(k, "variable") {
            match variable_block(s, p) {
                Ok((v, e)) => (AstItem::Variable(v), e),
                Err(f) => {
                    return Err(f);
                },
            }
        } else if str_eq(k, "beam") {
            match beam_block(s, p) {
                Ok((b, e)) => (AstItem::Beam(b), e),
                Err(f) => {
                    return Err(f);
                },
            }
        } else if str_eq(k, "default") {
            match default_beam(s, p) {
                Ok((n, e)) => (AstItem::Default(n), e),
                Err(f) => {
                    return Err(f);
                },
            }
        } else {
            return Err(fail(p, "expected 'variable', 'beam' or 'default'"));
        };
        let ghost t = top_view(item);
        assert(spec_item(s@, p as int) == Some((t, e as int)));
        items.push(item);
        assert(tops_view(items@) =~= tv.push(t));
        let next = skip_ws(s, e);
        proof {
            match spec_file_items(s@, next as int) {
                Some(ts) => {
                    assert(tv + (seq![t] + ts) =~= tv.push(t) + ts);
                },
                None => {},
            }
        }
        p = next;
    }
    proof {
        assert(tops_view(items@) + Seq::<TopModel>::empty() =~= tops_view(items@));
    }
    Ok(AstBeamfile { items })
}

/// `flag`, where it is set, else true.
pub open spec fn flag_or_true(flag: Option<bool>) -> bool {
    match flag {
        Some(b) => b,
        None => true,
    }
}

/// Whether hook `h` is what the block model describes; `fail_on_error`
/// defaults to true.
pub open spec fn hook_describes(h: Hook, m: HookModel) -> bool {
    &&& strs_view(h.commands@) == m.commands
    &&& opt_view(h.shell) == m.shell
    &&& opt_view(h.working_dir) == m.working_dir
    &&& h.fail_on_error == flag_or_true(m.flag)
}

/// Whether run block `r` is what the block model describes; `fail_fast`
/// defaults to true.
pub open spec fn run_describes(r: RunBlock, m: HookModel) -> bool {
    &&& crate::beam::command_lines(r.commands@) == m.commands
    &&& opt_view(r.shell) == m.shell
    &&& opt_view(r.working_dir) == m.working_dir
    &&& r.fail_fast == flag_or_true(m.flag)
}

/// Whether condition `c` is what the condition model describes.
pub open spec fn cond_describes(c: Condition, m: CondModel) -> bool {
    match m {
        CondModel::FileExists(p) => c matches Condition::FileExists(q) && q@ == p,
        CondModel::EnvSet(n) => c matches Condition::EnvSet(q) && q@ == n,
        CondModel::EnvEquals(n, v) => c matches Condition::EnvEquals { name, value } && name@ == n && value@ == v,
        CondModel::Compound => true,
    }
}

/// The hook that a hook block describes.
fn convert_hook(ast: AstHook) -> (r: Hook)
    ensures
        hook_describes(r, hook_view(ast)),
{
    let mut hook = Hook::new(ast.commands);
    hook.shell = ast.shell;
    hook.working_dir = ast.working_dir;
    if let Some(fail) = ast.fail_on_error {
        hook = hook.fail_on_error(fail);
    }
    hook
}

/// The run block that a run block's syntax describes.
fn convert_run(ast: AstRun) -> (r: RunBlock)
    ensures
        run_describes(r, run_view(ast)),
{
    let mut run = RunBlock::from_strings(ast.commands);
    run.shell = ast.shell;
    run.working_dir = ast.working_dir;
    if let Some(fail_fast) = ast.fail_fast {
        run = run.with_fail_fast(fail_fast);
    }
    run
}

/// Whether variable `v` is the one that a variable block named `name` with
/// these fields declares: its `default` and `description` are the strings
/// that the body last assigns them.
pub open spec fn variable_describes(v: Variable, name: Seq<char>, fields: Seq<(Seq<char>, ValueModel)>) -> bool {
    &&& v.name@ == name
    &&& opt_view(v.default) == field_string(fields, "default"@)
    &&& opt_view(v.description) == field_string(fields, "description"@)
}

/// The variable that a variable block describes.
fn convert_variable(ast: &AstVariable) -> (r: Variable)
    ensures
        variable_describes(r, ast.name@, fields_view(ast.body@)),
{
    let mut var = Variable::new(ast.name.as_str());
    var.default = last_string(&ast.body, "default");
    var.description = last_string(&ast.body, "description");
    var
}

/// The string that the fields last assign `key`, if they assign it one.
fn last_string(fields: &Vec<(String, AstValue)>, key: &str) -> (r: Option<String>)
    ensures
        opt_view(r) == field_string(fields_view(fields@), key@),
{
    let mut found: Option<String> = None;
    let mut i: usize = 0;
    while i < fields.len()
        invariant
            i <= fields@.len(),
            opt_view(found) == field_string(fields_view(fields@.take(i as int)), key@),
        decreases fields@.len() - i,
    {
        proof {
            assert(fields_view(fields@.take(i + 1)).drop_last() =~= fields_view(fields@.take(i as int)));
            assert(fields_view(fields@.take(i + 1)).last() == (fields@[i as int].0@, value_view(fields@[i as int].1)));
        }
        if str_eq(fields[i].0.as_str(), key) {
            found = match &fields[i].1 {
                AstValue::String(v) => Some(v.clone()),
                _ => None,
            };
        }
        i = i + 1;
    }
    assert(fields@.take(i as int) =~= fields@);
    found
}

/// The condition that a condition's syntax describes.
fn convert_condition(ast: AstCondition) -> (r: Condition)
    ensures
        cond_describes(r, cond_view(ast)),
    decreases ast,
{
    match ast {
        AstCondition::FileExists(path) => Condition::FileExists(path),
        AstCondition::EnvSet(name) => Condition::EnvSet(name),
        AstCondition::EnvEquals { name, value } => Condition::EnvEquals { name, value },
        AstCondition::Command { run, expect_success } => Condition::Command { run, expect_success },
        AstCondition::And(conditions) => Condition::And(convert_conditions(conditions)),
        AstCondition::Or(conditions) => Condition::Or(convert_conditions(conditions)),
        AstCondition::Not(condition) => Condition::Not(Box::new(convert_condition(*condition))),
    }
}

fn convert_conditions(conditions: Vec<AstCondition>) -> (r: Vec<Condition>)
    ensures
        r@.len() == conditions@.len(),
    decreases conditions,
{
    let mut out: Vec<Condition> = Vec::new();
    let mut rest = conditions;
    let ghost whole = rest;
    while rest.len() > 0
        invariant
            whole == conditions,
            out@.len() + rest@.len() == whole@.len(),
            rest@.len() <= whole@.len(),
            forall|i: int| 0 <= i < rest@.len() ==> #[trigger] rest@[i] == whole@[whole@.len() - rest@.len() + i],
        decreases rest@.len(),
    {
        let c = rest.remove(0);
        proof {
            assert(c == whole@[whole@.len() - rest@.len() - 1]);
            broadcast use vstd::std_specs::vec::axiom_vec_index_decreases;
            let k = whole@.len() - rest@.len() - 1;
            assert(decreases_to!(whole => whole[k]));
            assert(whole[k] == whole@[k]);
            assert(decreases_to!(conditions => c));
        }
        out.push(convert_condition(c));
    }
    out
}

/// The map of the pairs, a later pair replacing an earlier one of the same key.
pub open spec fn pairs_to_map(ps: Seq<(Seq<char>, Seq<char>)>) -> Map<Seq<char>, Seq<char>>
    decreases ps.len(),
{
    if ps.len() == 0 {
        Map::empty()
    } else {
        pairs_to_map(ps.drop_last()).insert(ps.last().0, ps.last().1)
    }
}

/// A map of the pairs, a later pair replacing an earlier one of the same key.
fn pairs_map(pairs: Vec<(String, String)>) -> (r: StrMap)
    ensures
        r.wf(),
        r@ == pairs_to_map(str_pairs_view(pairs@)),
{
    let mut m = StrMap::new();
    let mut i: usize = 0;
    while i < pairs.len()
        invariant
            m.wf(),
            i <= pairs@.len(),
            m@ == pairs_to_map(str_pairs_view(pairs@.take(i as int))),
        decreases pairs@.len() - i,
    {
        proof {
            assert(str_pairs_view(pairs@.take(i + 1)).drop_last() =~= str_pairs_view(pairs@.take(i as int)));
            assert(str_pairs_view(pairs@.take(i + 1)).last() == (pairs@[i as int].0@, pairs@[i as int].1@));
        }
        m.insert(pairs[i].0.clone(), pairs[i].1.clone());
        i = i + 1;
    }
    assert(pairs@.take(i as int) =~= pairs@);
    m
}

/// The description that the last `description` item gives.
pub open spec fn last_description(items: Seq<ItemModel>) -> Option<Seq<char>>
    decreases items.len(),
{
    if items.len() == 0 {
        None
    } else {
        match items.last() {
            ItemModel::Description(d) => Some(d),
            _ => last_description(items.drop_last()),
        }
    }
}

/// The names that the last `depends_on` (`field` 0), `inputs` (`field` 1)
/// or `outputs` (`field` 2) item gives; empty where there is none.
pub open spec fn last_names(items: Seq<ItemModel>, field: int) -> Seq<Seq<char>>
    decreases items.len(),
{
    if items.len() == 0 {
        Seq::empty()
    } else {
        match items.last() {
            ItemModel::DependsOn(v) if field == 0 => v,
            ItemModel::Inputs(v) if field == 1 => v,
            ItemModel::Outputs(v) if field == 2 => v,
            _ => last_names(items.drop_last(), field),
        }
    }
}

/// The last `run` item, if there is one.
pub open spec fn last_run(items: Seq<ItemModel>) -> Option<HookModel>
    decreases items.len(),
{
    if items.len() == 0 {
        None
    } else {
        match items.last() {
            ItemModel::Run(r) => Some(r),
            _ => last_run(items.drop_last()),
        }
    }
}

/// The last `condition` item, if there is one.
pub open spec fn last_condition(items: Seq<ItemModel>) -> Option<CondModel>
    decreases items.len(),
{
    if items.len() == 0 {
        None
    } else {
        match items.last() {
            ItemModel::Condition(c) => Some(c),
            _ => last_condition(items.drop_last()),
        }
    }
}

/// The pairs of the last `env` item; none where there is none.
pub open spec fn last_env(items: Seq<ItemModel>) -> Seq<(Seq<char>, Seq<char>)>
    decreases items.len(),
{
    if items.len() == 0 {
        Seq::empty()
    } else {
        match items.last() {
            ItemModel::Env(e) => e,
            _ => last_env(items.drop_last()),
        }
    }
}

/// The `pre_hook` (`pre`) or `post_hook` items, in order.
pub open spec fn hooks_of(items: Seq<ItemModel>, pre: bool) -> Seq<HookModel>
    decreases items.len(),
{
    if items.len() == 0 {
        Seq::empty()
    } else {
        match items.last() {
            ItemModel::PreHook(h) if pre => hooks_of(items.drop_last(), pre).push(h),
            ItemModel::PostHook(h) if !pre => hooks_of(items.drop_last(), pre).push(h),
            _ => hooks_of(items.drop_last(), pre),
        }
    }
}

/// Whether the hooks are those that the models describe, in order.
pub open spec fn hooks_describe(hs: Seq<Hook>, ms: Seq<HookModel>) -> bool {
    hs.len() == ms.len() && forall|i: int| 0 <= i < hs.len() ==> hook_describes(#[trigger] hs[i], ms[i])
}

/// Whether `b` is the beam that a beam block named `name` with these items
/// declares, its items applied in order (a later one replacing an earlier
/// one of the same kind, hooks adding up).
pub open spec fn beam_matches(b: Beam, name: Seq<char>, items: Seq<ItemModel>) -> bool {
    &&& b.name@ == name
    &&& opt_view(b.description) == last_description(items)
    &&& strs_view(b.depends_on@) == last_names(items, 0)
    &&& strs_view(b.inputs@) == last_names(items, 1)
    &&& strs_view(b.outputs@) == last_names(items, 2)
    &&& match b.run {
        Some(r) => last_run(items) matches Some(m) && run_describes(r, m),
        None => last_run(items) is None,
    }
    &&& match b.condition {
        Some(c) => last_condition(items) matches Some(m) && cond_describes(c, m),
        None => last_condition(items) is None,
    }
    &&& b.env@ == pairs_to_map(last_env(items))
    &&& hooks_describe(b.pre_hooks@, hooks_of(items, true))
    &&& hooks_describe(b.post_hooks@, hooks_of(items, false))
}

/// The beam that a beam block describes, its items applied in order.
fn convert_beam(ast: AstBeam) -> (r: Beam)
    ensures
        r.wf(),
        beam_matches(r, ast.name@, items_view(ast.body@)),
{
    let mut beam = Beam::new(ast.name.as_str());
    let ghost all = ast.body@;
    let mut items = ast.body;
    let ghost mut k: int = 0;
    proof {
        assert(items_view(all.take(0)) =~= Seq::<ItemModel>::empty());
        assert(strs_view(beam.depends_on@) =~= Seq::<Seq<char>>::empty());
        assert(strs_view(beam.inputs@) =~= Seq::<Seq<char>>::empty());
        assert(strs_view(beam.outputs@) =~= Seq::<Seq<char>>::empty());
        assert(pairs_to_map(Seq::<(Seq<char>, Seq<char>)>::empty()) =~= Map::<Seq<char>, Seq<char>>::empty());
    }
    while items.len() > 0
        invariant
            beam.wf(),
            0 <= k <= all.len(),
            items@ == all.skip(k),
            beam_matches(beam, ast.name@, items_view(all.take(k))),
        decreases items@.len(),
    {
        let item = items.remove(0);
        let ghost before = items_view(all.take(k));
        let ghost after = items_view(all.take(k + 1));
        let ghost b0 = beam;
        proof {
            assert(item == all[k]);
            assert(after.drop_last() =~= before);
            assert(after.last() == item_view(all[k]));
        }
        match item {
            AstBeamItem::Description(d) => {
                beam.description = Some(d);
            },
            AstBeamItem::DependsOn(deps) => {
                beam.depends_on = deps;
            },
            AstBeamItem::Condition(c) => {
                beam.condition = Some(convert_condition(c));
            },
            AstBeamItem::Env(env) => {
                beam.env = pairs_map(env);
            },
            AstBeamItem::PreHook(h) => {
                let nh = convert_hook(h);
                beam.pre_hooks.push(nh);
                proof {
                    assert(hooks_of(after, true) == hooks_of(before, true).push(hook_view(h)));
                    assert forall|i: int| 0 <= i < beam.pre_hooks@.len() implies hook_describes(
                        #[trigger] beam.pre_hooks@[i],
                        hooks_of(after, true)[i],
                    ) by {
                        if i < b0.pre_hooks@.len() {
                            assert(beam.pre_hooks@[i] == b0.pre_hooks@[i]);
                        }
                    }
                }
            },
            AstBeamItem::Run(run) => {
                beam.run = Some(convert_run(run));
            },
            AstBeamItem::PostHook(h) => {
                let nh = convert_hook(h);
                beam.post_hooks.push(nh);
                proof {
                    assert(hooks_of(after, false) == hooks_of(before, false).push(hook_view(h)));
                    assert forall|i: int| 0 <= i < beam.post_hooks@.len() implies hook_describes(
                        #[trigger] beam.post_hooks@[i],
                        hooks_of(after, false)[i],
                    ) by {
                        if i < b0.post_hooks@.len() {
                            assert(beam.post_hooks@[i] == b0.post_hooks@[i]);
                        }
                    }
                }
            },
            AstBeamItem::Inputs(inputs) => {
                beam.inputs = inputs;
            },
            AstBeamItem::Outputs(outputs) => {
                beam.outputs = outputs;
            },
        }
        proof {
            k = k + 1;
            assert(items@ =~= all.skip(k));
        }
    }
    proof {
        assert(all.take(k) =~= all);
    }
    beam
}

/// The default beam that the last `default` item names.
pub open spec fn last_default(tops: Seq<TopModel>) -> Option<Seq<char>>
    decreases tops.len(),
{
    if tops.len() == 0 {
        None
    } else {
        match tops.last() {
            TopModel::Default(d) => Some(d),
            _ => last_default(tops.drop_last()),
        }
    }
}

/// Whether some `beam` item is named `x`.
pub open spec fn declares_beam(tops: Seq<TopModel>, x: Seq<char>) -> bool {
    exists|j: int| 0 <= j < tops.len() && (#[trigger] tops[j] matches TopModel::Beam(n, _) && n == x)
}

/// Whether some `variable` item is named `x`.
pub open spec fn declares_variable(tops: Seq<TopModel>, x: Seq<char>) -> bool {
    exists|j: int| 0 <= j < tops.len() && (#[trigger] tops[j] matches TopModel::Variable(n, _) && n == x)
}

/// The items of the last `beam` item named `x`.
pub open spec fn last_beam_items(tops: Seq<TopModel>, x: Seq<char>) -> Seq<ItemModel>
    decreases tops.len(),
{
    if tops.len() == 0 {
        Seq::empty()
    } else {
        match tops.last() {
            TopModel::Beam(n, its) if n == x => its,
            _ => last_beam_items(tops.drop_last(), x),
        }
    }
}

/// The fields of the last `variable` item named `x`.
pub open spec fn last_variable_fields(tops: Seq<TopModel>, x: Seq<char>) -> Seq<(Seq<char>, ValueModel)>
    decreases tops.len(),
{
    if tops.len() == 0 {
        Seq::empty()
    } else {
        match tops.last() {
            TopModel::Variable(n, ps) if n == x => ps,
            _ => last_variable_fields(tops.drop_last(), x),
        }
    }
}

/// Whether `bf` is the Beamfile that the top-level items declare: a beam
/// for each beam name, as the last block of that name gives it; a variable
/// for each variable name, likewise; and the last default.
pub open spec fn beamfile_describes(bf: Beamfile, tops: Seq<TopModel>) -> bool {
    &&& opt_view(bf.default_beam) == last_default(tops)
    &&& (forall|x: Seq<char>| bf.has_beam(x) <==> declares_beam(tops, x))
    &&& (forall|i: int|
        0 <= i < bf.beams@.len() ==> beam_matches(
            #[trigger] bf.beams@[i],
            bf.beams@[i].name@,
            last_beam_items(tops, bf.beams@[i].name@),
        ))
    &&& (forall|x: Seq<char>| variable_names_of(bf.variables@).contains(x) <==> declares_variable(tops, x))
    &&& (forall|i: int|
        0 <= i < bf.variables@.len() ==> variable_describes(
            #[trigger] bf.variables@[i],
            bf.variables@[i].name@,
            last_variable_fields(tops, bf.variables@[i].name@),
        ))
}

proof fn lemma_declares_step(t0: Seq<TopModel>, t: TopModel)
    ensures
        forall|x: Seq<char>| declares_beam(t0.push(t), x) <==> (declares_beam(t0, x) || (t matches TopModel::Beam(n, _) && n == x)),
        forall|x: Seq<char>| declares_variable(t0.push(t), x) <==> (declares_variable(t0, x) || (t matches TopModel::Variable(n, _) && n == x)),
{
    let t1 = t0.push(t);
    assert forall|x: Seq<char>| declares_beam(t1, x) <==> (declares_beam(t0, x) || (t matches TopModel::Beam(n, _) && n == x)) by {
        if declares_beam(t0, x) {
            let j = choose|j: int| 0 <= j < t0.len() && (#[trigger] t0[j] matches TopModel::Beam(n, _) && n == x);
            assert(t1[j] == t0[j]);
        }
        if t matches TopModel::Beam(n, _) && n == x {
            assert(t1[t0.len() as int] == t);
        }
        if declares_beam(t1, x) {
            let j = choose|j: int| 0 <= j < t1.len() && (#[trigger] t1[j] matches TopModel::Beam(n, _) && n == x);
            if j < t0.len() {
                assert(t0[j] == t1[j]);
            }
        }
    }
    assert forall|x: Seq<char>| declares_variable(t1, x) <==> (declares_variable(t0, x) || (t matches TopModel::Variable(n, _) && n == x)) by {
        if declares_variable(t0, x) {
            let j = choose|j: int| 0 <= j < t0.len() && (#[trigger] t0[j] matches TopModel::Variable(n, _) && n == x);
            assert(t1[j] == t0[j]);
        }
        if t matches TopModel::Variable(n, _) && n == x {
            assert(t1[t0.len() as int] == t);
        }
        if declares_variable(t1, x) {
            let j = choose|j: int| 0 <= j < t1.len() && (#[trigger] t1[j] matches TopModel::Variable(n, _) && n == x);
            if j < t0.len() {
                assert(t0[j] == t1[j]);
            }
        }
    }
}

/// The Beamfile that a syntax tree describes, read from `path`.
fn convert_ast(ast: AstBeamfile, path: &str) -> (r: Beamfile)
    ensures
        r.wf(),
        r.path@ == path@,
        beamfile_describes(r, tops_view(ast.items@)),
{
    let mut bf = Beamfile::new(path);
    let ghost all = ast.items@;
    let mut items = ast.items;
    let ghost mut k: int = 0;
    proof {
        assert(tops_view(all.take(0)) =~= Seq::<TopModel>::empty());
        assert(bf.names() =~= Seq::<Seq<char>>::empty());
        assert(variable_names_of(bf.variables@) =~= Seq::<Seq<char>>::empty());
    }
    while items.len() > 0
        invariant
            bf.wf(),
            bf.path@ == path@,
            0 <= k <= all.len(),
            items@ == all.skip(k),
            beamfile_describes(bf, tops_view(all.take(k))),
        decreases items@.len(),
    {
        let item = items.remove(0);
        let ghost t0 = tops_view(all.take(k));
        let ghost t1 = tops_view(all.take(k + 1));
        let ghost bf0 = bf;
        proof {
            assert(item == all[k]);
            assert(t1 =~= t0.push(top_view(all[k])));
            lemma_declares_step(t0, top_view(all[k]));
        }
        match item {
            AstItem::Variable(v) => {
                let ghost vname = v.name@;
                let ghost vfields = fields_view(v.body@);
                let nv = convert_variable(&v);
                bf.add_variable(nv);
                proof {
                    let names0 = variable_names_of(bf0.variables@);
                    let names1 = variable_names_of(bf.variables@);
                    let idx = if names0.contains(vname) {
                        choose|i: int| 0 <= i < names0.len() && names0[i] == vname
                    } else {
                        names0.len() as int
                    };
                    assert(bf.variables@[idx] == nv);
                    assert(t1.drop_last() =~= t0);
                    assert(t1.last() == TopModel::Variable(vname, vfields));
                    assert(opt_view(bf.default_beam) == last_default(t1));
                    assert forall|x: Seq<char>| bf.has_beam(x) <==> declares_beam(t1, x) by {
                        assert(bf0.has_beam(x) <==> declares_beam(t0, x));
                    }
                    assert forall|i: int| 0 <= i < bf.variables@.len() && i != idx implies #[trigger] bf.variables@[i]
                        == bf0.variables@[i] by {}
                    assert(bf.names() == bf0.names());
                    assert forall|x: Seq<char>| names1.contains(x) <==> declares_variable(t1, x) by {
                        assert(names0.contains(x) <==> declares_variable(t0, x));
                        if names1.contains(x) {
                            let i = choose|i: int| 0 <= i < names1.len() && names1[i] == x;
                            if i != idx {
                                assert(names0[i] == x);
                            }
                        }
                        if names0.contains(x) {
                            let i = choose|i: int| 0 <= i < names0.len() && names0[i] == x;
                            if i != idx {
                                assert(names1[i] == x);
                            } else {
                                assert(names1[idx] == vname);
                            }
                        }
                        if x == vname {
                            assert(names1[idx] == x);
                        }
                    }
                    assert forall|i: int| 0 <= i < bf.variables@.len() implies variable_describes(
                        #[trigger] bf.variables@[i],
                        bf.variables@[i].name@,
                        last_variable_fields(t1, bf.variables@[i].name@),
                    ) by {
                        assert(t1.drop_last() =~= t0);
                        assert(t1.last() == TopModel::Variable(vname, vfields));
                        assert(names1[i] == bf.variables@[i].name@);
                        if i != idx {
                            assert(names1[i] != names1[idx]);
                            assert(bf.variables@[i] == bf0.variables@[i]);
                            assert(variable_describes(bf0.variables@[i], bf0.variables@[i].name@, last_variable_fields(t0, bf0.variables@[i].name@)));
                        }
                    }
                    assert forall|i: int| 0 <= i < bf.beams@.len() implies beam_matches(
                        #[trigger] bf.beams@[i],
                        bf.beams@[i].name@,
                        last_beam_items(t1, bf.beams@[i].name@),
                    ) by {
                        assert(t1.drop_last() =~= t0);
                        assert(t1.last() == top_view(all[k]));
                        assert(bf.beams@[i] == bf0.beams@[i]);
                        assert(beam_matches(bf0.beams@[i], bf0.beams@[i].name@, last_beam_items(t0, bf0.beams@[i].name@)));
                    }
                }
            },
            AstItem::Beam(b) => {
                let ghost bname = b.name@;
                let ghost bitems = items_view(b.body@);
                let nb = convert_beam(b);
                bf.add_beam(nb);
                proof {
                    let names0 = bf0.names();
                    let names1 = bf.names();
                    let idx = if names0.contains(bname) {
                        choose|i: int| 0 <= i < names0.len() && names0[i] == bname
                    } else {
                        names0.len() as int
                    };
                    assert(bf.beams@[idx] == nb);
                    assert(t1.drop_last() =~= t0);
                    assert(t1.last() == TopModel::Beam(bname, bitems));
                    assert(opt_view(bf.default_beam) == last_default(t1));
                    assert forall|x: Seq<char>| variable_names_of(bf.variables@).contains(x) <==> declares_variable(t1, x) by {
                        assert(variable_names_of(bf0.variables@).contains(x) <==> declares_variable(t0, x));
                    }
                    assert forall|i: int| 0 <= i < bf.beams@.len() && i != idx implies #[trigger] bf.beams@[i]
                        == bf0.beams@[i] by {}
                    assert(variable_names_of(bf.variables@) == variable_names_of(bf0.variables@));
                    assert forall|x: Seq<char>| bf.has_beam(x) <==> declares_beam(t1, x) by {
                        assert(bf0.has_beam(x) <==> declares_beam(t0, x));
                        if names1.contains(x) {
                            let i = choose|i: int| 0 <= i < names1.len() && names1[i] == x;
                            if i != idx {
                                assert(names0[i] == x);
                            }
                        }
                        if names0.contains(x) {
                            let i = choose|i: int| 0 <= i < names0.len() && names0[i] == x;
                            if i != idx {
                                assert(names1[i] == x);
                            } else {
                                assert(names1[idx] == bname);
                            }
                        }
                        if x == bname {
                            assert(names1[idx] == x);
                        }
                    }
                    assert forall|i: int| 0 <= i < bf.beams@.len() implies beam_matches(
                        #[trigger] bf.beams@[i],
                        bf.beams@[i].name@,
                        last_beam_items(t1, bf.beams@[i].name@),
                    ) by {
                        assert(t1.drop_last() =~= t0);
                        assert(t1.last() == TopModel::Beam(bname, bitems));
                        assert(names1[i] == bf.beams@[i].name@);
                        if i != idx {
                            assert(names1[i] != names1[idx]);
                            assert(bf.beams@[i] == bf0.beams@[i]);
                            assert(beam_matches(bf0.beams@[i], bf0.beams@[i].name@, last_beam_items(t0, bf0.beams@[i].name@)));
                        }
                    }
                    assert forall|i: int| 0 <= i < bf.variables@.len() implies variable_describes(
                        #[trigger] bf.variables@[i],
                        bf.variables@[i].name@,
                        last_variable_fields(t1, bf.variables@[i].name@),
                    ) by {
                        assert(t1.drop_last() =~= t0);
                        assert(t1.last() == top_view(all[k]));
                        assert(bf.variables@[i] == bf0.variables@[i]);
                        assert(variable_describes(bf0.variables@[i], bf0.variables@[i].name@, last_variable_fields(t0, bf0.variables@[i].name@)));
                    }
                }
            },
            AstItem::Default(name) => {
                let ghost dname = name@;
                bf.set_default_beam(name.as_str());
                proof {
                    assert(t1.drop_last() =~= t0);
                    assert(t1.last() == TopModel::Default(dname));
                    assert(opt_view(bf.default_beam) == last_default(t1));
                    assert(bf.names() == bf0.names());
                    assert forall|x: Seq<char>| bf.has_beam(x) <==> declares_beam(t1, x) by {
                        assert(bf0.has_beam(x) <==> declares_beam(t0, x));
                    }
                    assert forall|x: Seq<char>| variable_names_of(bf.variables@).contains(x) <==> declares_variable(t1, x) by {
                        assert(variable_names_of(bf0.variables@).contains(x) <==> declares_variable(t0, x));
                    }
                    assert forall|i: int| 0 <= i < bf.beams@.len() implies beam_matches(
                        #[trigger] bf.beams@[i],
                        bf.beams@[i].name@,
                        last_beam_items(t1, bf.beams@[i].name@),
                    ) by {
                        assert(t1.drop_last() =~= t0);
                        assert(t1.last() == top_view(all[k]));
                        assert(bf.beams@[i] == bf0.beams@[i]);
                        assert(beam_matches(bf0.beams@[i], bf0.beams@[i].name@, last_beam_items(t0, bf0.beams@[i].name@)));
                    }
                    assert forall|i: int| 0 <= i < bf.variables@.len() implies variable_describes(
                        #[trigger] bf.variables@[i],
                        bf.variables@[i].name@,
                        last_variable_fields(t1, bf.variables@[i].name@),
                    ) by {
                        assert(t1.drop_last() =~= t0);
                        assert(t1.last() == top_view(all[k]));
                        assert(bf.variables@[i] == bf0.variables@[i]);
                        assert(variable_describes(bf0.variables@[i], bf0.variables@[i].name@, last_variable_fields(t0, bf0.variables@[i].name@)));
                    }
                }
            },
        }
        proof {
            k = k + 1;
            assert(items@ =~= all.skip(k));
        }
    }
    proof {
        assert(all.take(k) =~= all);
    }
    bf
}

/// Parses a Beamfile's text, read from `path`. Fails with `Parse`, which
/// gives the character position of the failure, exactly where the text
/// does not follow the grammar.
pub fn parse_beamfile(content: &str, path: &str) -> (r: Result<Beamfile, AuroraError>)
    ensures
        match r {
            Ok(bf) => (beamfile_items(content@) matches Some(tops) && beamfile_describes(bf, tops)) && bf.wf()
                && bf.path@ == path@,
            Err(e) => !is_beamfile(content@) && e is Parse,
        },
{
    let s = chars_of(content);
    match beamfile(&s) {
        Ok(ast) => Ok(convert_ast(ast, path)),
        Err(f) => {
            let n = s.len();
            let pos = if f.pos < n {
                f.pos
            } else {
                n
            };
            let message = if pos >= n {
                copy_str("Unexpected end of file")
            } else {
                f.message
            };
            let span = if n <= (usize::MAX - 4) / 4 {
                Some(locate(&s, pos))
            } else {
                None
            };
            Err(AuroraError::Parse { message, span })
        },
    }
}

/// The number of bytes that `c` takes in UTF-8.
pub open spec fn utf8_width(c: char) -> nat {
    if (c as u32) < 0x80 {
        1
    } else if (c as u32) < 0x800 {
        2
    } else if (c as u32) < 0x10000 {
        3
    } else {
        4
    }
}

/// The number of bytes that the characters take in UTF-8.
pub open spec fn utf8_len(cs: Seq<char>) -> nat
    decreases cs.len(),
{
    if cs.len() == 0 {
        0
    } else {
        utf8_len(cs.drop_last()) + utf8_width(cs.last())
    }
}

/// The number of newlines among the characters.
pub open spec fn newlines(cs: Seq<char>) -> nat
    decreases cs.len(),
{
    if cs.len() == 0 {
        0
    } else {
        newlines(cs.drop_last()) + if cs.last() == '\n' {
            1nat
        } else {
            0nat
        }
    }
}

/// The number of characters after the last newline.
pub open spec fn line_tail(cs: Seq<char>) -> nat
    decreases cs.len(),
{
    if cs.len() == 0 {
        0
    } else if cs.last() == '\n' {
        0
    } else {
        line_tail(cs.drop_last()) + 1
    }
}

proof fn lemma_counts_bounded(cs: Seq<char>)
    ensures
        utf8_len(cs) <= 4 * cs.len(),
        newlines(cs) <= cs.len(),
        line_tail(cs) <= cs.len(),
    decreases cs.len(),
{
    if cs.len() > 0 {
        lemma_counts_bounded(cs.drop_last());
    }
}

/// Where position `pos` of the text stands: its byte offset and the byte
/// after its character, its line and its column (both from 1).
fn locate(s: &Vec<char>, pos: usize) -> (r: Span)
    requires
        pos <= s@.len(),
        4 * s@.len() + 4 <= usize::MAX,
    ensures
        r.start == utf8_len(s@.take(pos as int)),
        r.end == if pos < s@.len() {
            utf8_len(s@.take(pos + 1))
        } else {
            r.start as nat
        },
        r.line == newlines(s@.take(pos as int)) + 1,
        r.column == line_tail(s@.take(pos as int)) + 1,
{
    let mut bytes: usize = 0;
    let mut line: usize = 1;
    let mut column: usize = 1;
    let mut i: usize = 0;
    while i < pos
        invariant
            pos <= s@.len(),
            4 * s@.len() + 4 <= usize::MAX,
            i <= pos,
            bytes == utf8_len(s@.take(i as int)),
            line == newlines(s@.take(i as int)) + 1,
            column == line_tail(s@.take(i as int)) + 1,
        decreases pos - i,
    {
        proof {
            assert(s@.take(i + 1).drop_last() =~= s@.take(i as int));
            lemma_counts_bounded(s@.take(i as int));
        }
        let c = s[i];
        bytes = bytes + char_width(c);
        if c == '\n' {
            line = line + 1;
            column = 1;
        } else {
            column = column + 1;
        }
        i = i + 1;
    }
    let end = if pos < s.len() {
        proof {
            assert(s@.take(pos + 1).drop_last() =~= s@.take(pos as int));
            lemma_counts_bounded(s@.take(pos as int));
        }
        bytes + char_width(s[pos])
    } else {
        bytes
    };
    Span { start: bytes, end, line, column }
}

fn char_width(c: char) -> (r: usize)
    ensures
        r == utf8_width(c),
{
    if (c as u32) < 0x80 {
        1
    } else if (c as u32) < 0x800 {
        2
    } else if (c as u32) < 0x10000 {
        3
    } else {
        4
    }
}

/// Parses a Beamfile's text that was not read from a file.
pub fn parse_str(content: &str) -> (r: Result<Beamfile, AuroraError>)
    ensures
        match r {
            Ok(bf) => (beamfile_items(content@) matches Some(tops) && beamfile_describes(bf, tops)) && bf.wf()
                && bf.path@ == "<string>"@,
            Err(e) => !is_beamfile(content@) && e is Parse,
        },
{
    parse_beamfile(content, "<string>")
}

} // verus!
