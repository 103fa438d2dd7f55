//! Variable interpolation in Beamfile strings.
//!
//! - `${var.NAME}` and the shorthand `${NAME}`: a Beamfile variable
//! - `${env.NAME}`: a variable of the process environment
//! - `${beam.name}`: the current beam's name
//! - `${ctx.KEY}`: a value that the caller supplied
//! - `$$`: a literal `$`

use vstd::prelude::*;
use vstd::slice::slice_subrange;

use crate::error::AuroraError;
use crate::strmap::StrMap;
use crate::text::{copy_str, string_of, chars_of};

verus! {

/// What an interpolation context holds.
pub struct ContextModel {
    pub variables: Map<Seq<char>, Seq<char>>,
    pub env: Map<Seq<char>, Seq<char>>,
    pub beam_name: Option<Seq<char>>,
    pub extra: Map<Seq<char>, Seq<char>>,
}

/// The values that `${...}` references resolve to. The process
/// environment is held as a snapshot taken by the caller.
#[derive(Clone, Debug)]
pub struct InterpolationContext {
    variables: StrMap,
    env: StrMap,
    beam_name: Option<String>,
    extra: StrMap,
}

impl View for InterpolationContext {
    type V = ContextModel;

    closed spec fn view(&self) -> ContextModel {
        ContextModel {
            variables: self.variables@,
            env: self.env@,
            beam_name: match self.beam_name {
                Some(s) => Some(s@),
                None => None,
            },
            extra: self.extra@,
        }
    }
}

/// The empty context: no variable, no environment, no beam, no extra key.
pub open spec fn empty_context() -> ContextModel {
    ContextModel {
        variables: Map::empty(),
        env: Map::empty(),
        beam_name: None,
        extra: Map::empty(),
    }
}

/// A character that may stand inside `${...}`.
pub open spec fn is_ref_char(c: char) -> bool {
    ('a' <= c && c <= 'z') || ('A' <= c && c <= 'Z') || ('0' <= c && c <= '9') || c == '_'
        || c == '.'
}

/// The number of reference characters at the start of `s`.
pub open spec fn ref_run(s: Seq<char>) -> nat
    decreases s.len(),
{
    if s.len() > 0 && is_ref_char(s[0]) {
        1 + ref_run(s.skip(1))
    } else {
        0
    }
}

/// Whether `s` starts with `p`.
pub open spec fn has_prefix(s: Seq<char>, p: Seq<char>) -> bool {
    p.len() <= s.len() && s.take(p.len() as int) == p
}

pub open spec fn var_prefix() -> Seq<char> {
    seq!['v', 'a', 'r', '.']
}

pub open spec fn env_prefix() -> Seq<char> {
    seq!['e', 'n', 'v', '.']
}

pub open spec fn ctx_prefix() -> Seq<char> {
    seq!['c', 't', 'x', '.']
}

pub open spec fn beam_name_ref() -> Seq<char> {
    seq!['b', 'e', 'a', 'm', '.', 'n', 'a', 'm', 'e']
}

/// The value that the reference `name` (the text between `${` and `}`)
/// stands for, if it is defined.
pub open spec fn resolve_name(name: Seq<char>, c: ContextModel) -> Option<Seq<char>> {
    if has_prefix(name, var_prefix()) {
        lookup(c.variables, name.skip(4))
    } else if has_prefix(name, env_prefix()) {
        lookup(c.env, name.skip(4))
    } else if name == beam_name_ref() {
        c.beam_name
    } else if has_prefix(name, ctx_prefix()) {
        lookup(c.extra, name.skip(4))
    } else {
        lookup(c.variables, name)
    }
}

pub open spec fn lookup(m: Map<Seq<char>, Seq<char>>, k: Seq<char>) -> Option<Seq<char>> {
    if m.contains_key(k) {
        Some(m[k])
    } else {
        None
    }
}

/// The result of interpolating `s` in context `c`; `None` where it fails.
pub open spec fn interp(s: Seq<char>, c: ContextModel) -> Option<Seq<char>>
    decreases s.len(),
{
    if s.len() == 0 {
        Some(Seq::empty())
    } else if s[0] == '$' && s.len() >= 2 && s[1] == '$' {
        match interp(s.skip(2), c) {
            Some(r) => Some(seq!['$'] + r),
            None => None,
        }
    } else if s[0] == '$' && s.len() >= 2 && s[1] == '{' {
        let body = s.skip(2);
        let n = ref_run(body);
        if n < body.len() && body[n as int] != '}' {
            None
        } else if n == 0 {
            None
        } else {
            let rest = if n < body.len() {
                body.skip(n + 1 as int)
            } else {
                Seq::empty()
            };
            match resolve_name(body.take(n as int), c) {
                None => None,
                Some(v) => match interp(rest, c) {
                    Some(r) => Some(v + r),
                    None => None,
                },
            }
        }
    } else {
        match interp(s.skip(1), c) {
            Some(r) => Some(seq![s[0]] + r),
            None => None,
        }
    }
}

/// Whether `s` holds the opening `${` of a reference.
pub open spec fn has_reference(s: Seq<char>) -> bool {
    exists|i: int| 0 <= i < s.len() - 1 && #[trigger] s[i] == '$' && s[i + 1] == '{'
}

/// Whether `s` holds `$$`.
pub open spec fn has_escape(s: Seq<char>) -> bool {
    exists|i: int| 0 <= i < s.len() - 1 && #[trigger] s[i] == '$' && s[i + 1] == '$'
}

proof fn lemma_ref_run_bound(s: Seq<char>)
    ensures
        ref_run(s) <= s.len(),
        forall|m: int| 0 <= m < ref_run(s) ==> is_ref_char(#[trigger] s[m]),
        ref_run(s) < s.len() ==> !is_ref_char(s[ref_run(s) as int]),
    decreases s.len(),
{
    if s.len() > 0 && is_ref_char(s[0]) {
        lemma_ref_run_bound(s.skip(1));
        assert forall|m: int| 0 <= m < ref_run(s) implies is_ref_char(#[trigger] s[m]) by {
            if m > 0 {
                assert(s[m] == s.skip(1)[m - 1]);
            }
        }
    }
}

proof fn lemma_ref_run_exact(s: Seq<char>, k: int)
    requires
        0 <= k <= s.len(),
        forall|m: int| 0 <= m < k ==> is_ref_char(#[trigger] s[m]),
        k < s.len() ==> !is_ref_char(s[k]),
    ensures
        ref_run(s) == k,
    decreases k,
{
    if k > 0 {
        assert(is_ref_char(s[0]));
        let t = s.skip(1);
        assert forall|m: int| 0 <= m < k - 1 implies is_ref_char(#[trigger] t[m]) by {
            assert(t[m] == s[m + 1]);
        }
        lemma_ref_run_exact(t, k - 1);
    }
}

fn is_ref_char_exec(c: char) -> (r: bool)
    ensures
        r == is_ref_char(c),
{
    ('a' <= c && c <= 'z') || ('A' <= c && c <= 'Z') || ('0' <= c && c <= '9') || c == '_'
        || c == '.'
}

/// Whether `v[start..end]` begins with the four characters of `p`.
fn starts_with4(v: &Vec<char>, start: usize, end: usize, p: [char; 4]) -> (r: bool)
    requires
        start <= end <= v@.len(),
    ensures
        r == has_prefix(v@.subrange(start as int, end as int), p@),
{
    let ghost s = v@.subrange(start as int, end as int);
    if end - start < 4 {
        return false;
    }
    let r = v[start] == p[0] && v[start + 1] == p[1] && v[start + 2] == p[2] && v[start + 3]
        == p[3];
    proof {
        if r {
            assert(s.take(4) =~= p@);
        } else {
            if s.take(4) == p@ {
                assert(s.take(4)[0] == p@[0]);
                assert(s.take(4)[1] == p@[1]);
                assert(s.take(4)[2] == p@[2]);
                assert(s.take(4)[3] == p@[3]);
            }
        }
    }
    r
}

/// Whether `v[start..end]` is `beam.name`.
fn is_beam_name_ref(v: &Vec<char>, start: usize, end: usize) -> (r: bool)
    requires
        start <= end <= v@.len(),
    ensures
        r == (v@.subrange(start as int, end as int) == beam_name_ref()),
{
    let ghost s = v@.subrange(start as int, end as int);
    assert(beam_name_ref().len() == 9);
    if end - start != 9 {
        return false;
    }
    let r = v[start] == 'b' && v[start + 1] == 'e' && v[start + 2] == 'a' && v[start + 3] == 'm'
        && v[start + 4] == '.' && v[start + 5] == 'n' && v[start + 6] == 'a' && v[start + 7]
        == 'm' && v[start + 8] == 'e';
    proof {
        if r {
            assert(s =~= beam_name_ref());
        } else if s == beam_name_ref() {
            assert(s[0] == 'b' && s[1] == 'e' && s[2] == 'a' && s[3] == 'm' && s[4] == '.');
            assert(s[5] == 'n' && s[6] == 'a' && s[7] == 'm' && s[8] == 'e');
        }
    }
    r
}

fn interpolation_error(message: &str) -> (e: AuroraError)
    ensures
        e is Interpolation,
{
    AuroraError::Interpolation { message: copy_str(message) }
}

impl InterpolationContext {
    pub closed spec fn wf(&self) -> bool {
        self.variables.wf() && self.env.wf() && self.extra.wf()
    }

    /// An empty context.
    pub fn new() -> (r: InterpolationContext)
        ensures
            r.wf(),
            r@ == empty_context(),
    {
        InterpolationContext {
            variables: StrMap::new(),
            env: StrMap::new(),
            beam_name: None,
            extra: StrMap::new(),
        }
    }

    /// Adds a Beamfile variable.
    pub fn with_variable(self, name: &str, value: &str) -> (r: InterpolationContext)
        requires
            self.wf(),
        ensures
            r.wf(),
            r@ == (ContextModel { variables: self@.variables.insert(name@, value@), ..self@ }),
    {
        let mut r = self;
        r.variables.insert(copy_str(name), copy_str(value));
        r
    }

    /// Adds every entry of `vars` as a Beamfile variable.
    pub fn with_variables(self, vars: &StrMap) -> (r: InterpolationContext)
        requires
            self.wf(),
            vars.wf(),
        ensures
            r.wf(),
            r@ == (ContextModel { variables: self@.variables.union_prefer_right(vars@), ..self@ }),
    {
        let mut r = self;
        r.variables = r.variables.merged(vars);
        r
    }

    /// Adds a variable of the process environment.
    pub fn with_env_var(self, name: &str, value: &str) -> (r: InterpolationContext)
        requires
            self.wf(),
        ensures
            r.wf(),
            r@ == (ContextModel { env: self@.env.insert(name@, value@), ..self@ }),
    {
        let mut r = self;
        r.env.insert(copy_str(name), copy_str(value));
        r
    }

    /// Takes `env` as the snapshot of the process environment.
    pub fn with_environment(self, env: StrMap) -> (r: InterpolationContext)
        requires
            self.wf(),
            env.wf(),
        ensures
            r.wf(),
            r@ == (ContextModel { env: env@, ..self@ }),
    {
        let mut r = self;
        r.env = env;
        r
    }

    /// Sets the current beam's name.
    pub fn with_beam_name(self, name: &str) -> (r: InterpolationContext)
        requires
            self.wf(),
        ensures
            r.wf(),
            r@ == (ContextModel { beam_name: Some(name@), ..self@ }),
    {
        let mut r = self;
        r.beam_name = Some(copy_str(name));
        r
    }

    /// Adds an extra context value.
    pub fn with_extra(self, key: &str, value: &str) -> (r: InterpolationContext)
        requires
            self.wf(),
        ensures
            r.wf(),
            r@ == (ContextModel { extra: self@.extra.insert(key@, value@), ..self@ }),
    {
        let mut r = self;
        r.extra.insert(copy_str(key), copy_str(value));
        r
    }

    /// The value of a Beamfile variable.
    pub fn get_variable(&self, name: &str) -> (r: Option<&String>)
        requires
            self.wf(),
        ensures
            match r {
                Some(v) => lookup(self@.variables, name@) == Some(v@),
                None => lookup(self@.variables, name@) is None,
            },
    {
        self.variables.get(name)
    }

    /// The value of an environment variable in the snapshot.
    pub fn get_env(&self, name: &str) -> (r: Option<&String>)
        requires
            self.wf(),
        ensures
            match r {
                Some(v) => lookup(self@.env, name@) == Some(v@),
                None => lookup(self@.env, name@) is None,
            },
    {
        self.env.get(name)
    }

    /// The current beam's name.
    pub fn get_beam_name(&self) -> (r: Option<&String>)
        ensures
            match r {
                Some(v) => self@.beam_name == Some(v@),
                None => self@.beam_name is None,
            },
    {
        match &self.beam_name {
            Some(s) => Some(s),
            None => None,
        }
    }

    /// An extra context value.
    pub fn get_extra(&self, key: &str) -> (r: Option<&String>)
        requires
            self.wf(),
        ensures
            match r {
                Some(v) => lookup(self@.extra, key@) == Some(v@),
                None => lookup(self@.extra, key@) is None,
            },
    {
        self.extra.get(key)
    }
}

/// A reference between `${` and `}`, sorted by what it names.
enum VariableRef {
    Variable(String),
    Environment(String),
    BeamName,
    Extra(String),
}

/// Reads the reference `v[start..end]`.
fn parse_variable_ref(v: &Vec<char>, start: usize, end: usize) -> (r: VariableRef)
    requires
        start <= end <= v@.len(),
    ensures
        ({
            let name = v@.subrange(start as int, end as int);
            match r {
                VariableRef::Variable(n) => (has_prefix(name, var_prefix()) && n@ == name.skip(4))
                    || (!has_prefix(name, var_prefix()) && !has_prefix(name, env_prefix())
                    && name != beam_name_ref() && !has_prefix(name, ctx_prefix()) && n@ == name),
                VariableRef::Environment(n) => !has_prefix(name, var_prefix()) && has_prefix(
                    name,
                    env_prefix(),
                ) && n@ == name.skip(4),
                VariableRef::BeamName => !has_prefix(name, var_prefix()) && !has_prefix(
                    name,
                    env_prefix(),
                ) && name == beam_name_ref(),
                VariableRef::Extra(n) => !has_prefix(name, var_prefix()) && !has_prefix(
                    name,
                    env_prefix(),
                ) && name != beam_name_ref() && has_prefix(name, ctx_prefix()) && n@ == name.skip(
                    4,
                ),
            }
        }),
{
    let ghost name = v@.subrange(start as int, end as int);
    let s = v.as_slice();
    if starts_with4(v, start, end, ['v', 'a', 'r', '.']) {
        let r = string_of(slice_subrange(s, start + 4, end));
        assert(r@ =~= name.skip(4));
        VariableRef::Variable(r)
    } else if starts_with4(v, start, end, ['e', 'n', 'v', '.']) {
        let r = string_of(slice_subrange(s, start + 4, end));
        assert(r@ =~= name.skip(4));
        VariableRef::Environment(r)
    } else if is_beam_name_ref(v, start, end) {
        VariableRef::BeamName
    } else if starts_with4(v, start, end, ['c', 't', 'x', '.']) {
        let r = string_of(slice_subrange(s, start + 4, end));
        assert(r@ =~= name.skip(4));
        VariableRef::Extra(r)
    } else {
        let r = string_of(slice_subrange(s, start, end));
        VariableRef::Variable(r)
    }
}

/// Resolves the reference `v[start..end]` in `ctx`.
fn resolve_variable(v: &Vec<char>, start: usize, end: usize, ctx: &InterpolationContext) -> (r:
    Result<String, AuroraError>)
    requires
        start <= end <= v@.len(),
        ctx.wf(),
    ensures
        match r {
            Ok(s) => resolve_name(v@.subrange(start as int, end as int), ctx@) == Some(s@),
            Err(e) => resolve_name(v@.subrange(start as int, end as int), ctx@) is None
                && e is Interpolation,
        },
{
    let var_ref = parse_variable_ref(v, start, end);
    proof {
        assert(var_prefix() =~= seq!['v', 'a', 'r', '.']);
    }
    match var_ref {
        VariableRef::Variable(name) => match ctx.get_variable(name.as_str()) {
            Some(s) => Ok(s.clone()),
            None => Err(interpolation_error("undefined variable")),
        },
        VariableRef::Environment(name) => match ctx.get_env(name.as_str()) {
            Some(s) => Ok(s.clone()),
            None => Err(interpolation_error("undefined environment variable")),
        },
        VariableRef::BeamName => match ctx.get_beam_name() {
            Some(s) => Ok(s.clone()),
            None => Err(interpolation_error("beam name not available in this context")),
        },
        VariableRef::Extra(key) => match ctx.get_extra(key.as_str()) {
            Some(s) => Ok(s.clone()),
            None => Err(interpolation_error("undefined context key")),
        },
    }
}

pub open spec fn prepend(p: Seq<char>, o: Option<Seq<char>>) -> Option<Seq<char>> {
    match o {
        Some(r) => Some(p + r),
        None => None,
    }
}

proof fn lemma_prepend_assoc(a: Seq<char>, b: Seq<char>, o: Option<Seq<char>>)
    ensures
        prepend(a, prepend(b, o)) == prepend(a + b, o),
{
    match o {
        Some(r) => {
            assert(a + (b + r) =~= (a + b) + r);
        },
        None => {},
    }
}

/// Appends the characters of `s` to `out`.
pub(crate) fn push_all_chars(out: &mut Vec<char>, s: &str)
    ensures
        final(out)@ == old(out)@ + s@,
{
    push_all(out, s)
}

/// Appends the characters of `s` to `out`.
fn push_all(out: &mut Vec<char>, s: &str)
    ensures
        final(out)@ == old(out)@ + s@,
{
    let vc = chars_of(s);
    let mut k: usize = 0;
    while k < vc.len()
        invariant
            k <= vc@.len(),
            vc@ == s@,
            out@ == old(out)@ + vc@.take(k as int),
        decreases vc@.len() - k,
    {
        out.push(vc[k]);
        k = k + 1;
        assert(out@ =~= old(out)@ + vc@.take(k as int));
    }
    assert(vc@.take(k as int) =~= vc@);
}

/// Reads and resolves the reference that starts with the `${` at `v[i]`.
/// Returns its value and the position after it.
fn read_reference(v: &Vec<char>, i: usize, ctx: &InterpolationContext) -> (r: Result<
    (String, usize),
    AuroraError,
>)
    requires
        ctx.wf(),
        i + 1 < v@.len(),
        v@[i as int] == '$',
        v@[i + 1] == '{',
    ensures
        match r {
            Ok((val, next)) => i < next <= v@.len() && interp(v@.skip(i as int), ctx@) == prepend(
                val@,
                interp(v@.skip(next as int), ctx@),
            ),
            Err(e) => interp(v@.skip(i as int), ctx@) is None && e is Interpolation,
        },
{
    let ghost s = v@;
    let ghost t = s.skip(i as int);
    let ghost body = t.skip(2);
    let vlen = v.len();
    assert(i + 2 <= vlen);
    let start = i + 2;
    let mut j = start;
    while j < v.len() && is_ref_char_exec(v[j])
        invariant
            s == v@,
            start <= j <= s.len(),
            forall|m: int| start <= m < j ==> is_ref_char(#[trigger] s[m]),
        decreases s.len() - j,
    {
        j = j + 1;
    }
    proof {
        assert(body =~= s.skip(start as int));
        assert forall|m: int| 0 <= m < j - start implies is_ref_char(#[trigger] body[m]) by {
            assert(body[m] == s[start + m]);
        }
        lemma_ref_run_exact(body, j - start);
        assert(t[0] == '$' && t[1] == '{');
    }
    if j < v.len() && v[j] != '}' {
        return Err(interpolation_error("invalid character in variable reference"));
    }
    if j == start {
        return Err(interpolation_error("empty variable reference"));
    }
    let value = resolve_variable(v, start, j, ctx);
    proof {
        assert(body.take(j - start) =~= s.subrange(start as int, j as int));
    }
    match value {
        Ok(val) => {
            if j < v.len() {
                assert(body.skip(j - start + 1) =~= s.skip(j + 1));
                Ok((val, j + 1))
            } else {
                assert(s.skip(j as int) =~= Seq::<char>::empty());
                Ok((val, j))
            }
        },
        Err(e) => Err(e),
    }
}

/// Interpolates the references in `input`.
pub fn interpolate(input: &str, ctx: &InterpolationContext) -> (r: Result<String, AuroraError>)
    requires
        ctx.wf(),
    ensures
        match r {
            Ok(s) => interp(input@, ctx@) == Some(s@),
            Err(e) => interp(input@, ctx@) is None && e is Interpolation,
        },
{
    let v = chars_of(input);
    let ghost s = v@;
    let mut out: Vec<char> = Vec::new();
    let mut i: usize = 0;
    assert(s.skip(0) =~= s);
    assert(prepend(Seq::empty(), interp(s, ctx@)) =~= interp(s, ctx@)) by {
        match interp(s, ctx@) {
            Some(r) => { assert(Seq::<char>::empty() + r =~= r); },
            None => {},
        }
    }
    while i < v.len()
        invariant
            s == v@,
            s == input@,
            ctx.wf(),
            i <= s.len(),
            interp(s, ctx@) == prepend(out@, interp(s.skip(i as int), ctx@)),
        decreases s.len() - i,
    {
        let ghost t = s.skip(i as int);
        let c = v[i];
        if c == '$' && i + 1 < v.len() && v[i + 1] == '$' {
            out.push('$');
            proof {
                assert(t.skip(2) =~= s.skip(i + 2));
                assert(t[0] == '$' && t[1] == '$');
                lemma_prepend_assoc(out@.drop_last(), seq!['$'], interp(s.skip(i + 2), ctx@));
                assert(out@.drop_last() + seq!['$'] =~= out@);
            }
            i = i + 2;
        } else if c == '$' && i + 1 < v.len() && v[i + 1] == '{' {
            match read_reference(&v, i, ctx) {
                Ok((val, next)) => {
                    let ghost out0 = out@;
                    push_all(&mut out, val.as_str());
                    proof {
                        lemma_prepend_assoc(out0, val@, interp(s.skip(next as int), ctx@));
                    }
                    i = next;
                },
                Err(e) => {
                    return Err(e);
                },
            }
        } else {
            out.push(c);
            proof {
                assert(t.skip(1) =~= s.skip(i + 1));
                assert(t[0] == c);
                lemma_prepend_assoc(out@.drop_last(), seq![c], interp(s.skip(i + 1), ctx@));
                assert(out@.drop_last() + seq![c] =~= out@);
            }
            i = i + 1;
        }
    }
    proof {
        assert(s.skip(i as int) =~= Seq::<char>::empty());
        assert(out@ + Seq::<char>::empty() =~= out@);
    }
    Ok(string_of(out.as_slice()))
}

/// Interpolates every string of `items`, stopping at the first failure.
pub fn interpolate_vec(items: &[String], ctx: &InterpolationContext) -> (r: Result<
    Vec<String>,
    AuroraError,
>)
    requires
        ctx.wf(),
    ensures
        match r {
            Ok(out) => out@.len() == items@.len() && forall|i: int|
                0 <= i < items@.len() ==> interp(#[trigger] items@[i]@, ctx@) == Some(out@[i]@),
            Err(e) => e is Interpolation && exists|i: int|
                0 <= i < items@.len() && #[trigger] interp(items@[i]@, ctx@) is None,
        },
{
    let mut out: Vec<String> = Vec::new();
    let mut i: usize = 0;
    while i < items.len()
        invariant
            ctx.wf(),
            i <= items@.len(),
            out@.len() == i,
            forall|j: int| 0 <= j < i ==> interp(#[trigger] items@[j]@, ctx@) == Some(out@[j]@),
        decreases items@.len() - i,
    {
        match interpolate(items[i].as_str(), ctx) {
            Ok(x) => out.push(x),
            Err(e) => {
                assert(interp(items@[i as int]@, ctx@) is None);
                return Err(e);
            },
        }
        i = i + 1;
    }
    Ok(out)
}

/// Interpolates every value of `map`; the keys stay as they are.
pub fn interpolate_map(map: &StrMap, ctx: &InterpolationContext) -> (r: Result<
    StrMap,
    AuroraError,
>)
    requires
        ctx.wf(),
        map.wf(),
    ensures
        match r {
            Ok(out) => out.wf() && out@.dom() == map@.dom() && forall|k: Seq<char>|
                #[trigger] map@.contains_key(k) ==> interp(map@[k], ctx@) == Some(out@[k]),
            Err(e) => e is Interpolation && exists|k: Seq<char>|
                #[trigger] map@.contains_key(k) && interp(map@[k], ctx@) is None,
        },
{
    let mut out = StrMap::new();
    let n = map.entry_count();
    let mut i: usize = 0;
    while i < n
        invariant
            ctx.wf(),
            map.wf(),
            out.wf(),
            n == map.pairs().len(),
            i <= n,
            forall|k: Seq<char>| #[trigger] out@.contains_key(k) <==> exists|j: int|
                0 <= j < i && map.pairs()[j].0 == k,
            forall|k: Seq<char>| #[trigger] out@.contains_key(k) ==> map@.contains_key(k)
                && interp(map@[k], ctx@) == Some(out@[k]),
        decreases n - i,
    {
        let (key, value) = map.entry_at(i);
        match interpolate(value.as_str(), ctx) {
            Ok(x) => {
                out.insert(key.clone(), x);
                proof {
                    assert forall|k: Seq<char>| #[trigger] out@.contains_key(k) <==> exists|j: int|
                        0 <= j < i + 1 && map.pairs()[j].0 == k by {
                        if k == key@ {
                            assert(map.pairs()[i as int].0 == k);
                        }
                    }
                }
            },
            Err(e) => {
                return Err(e);
            },
        }
        i = i + 1;
    }
    proof {
        assert forall|k: Seq<char>| map@.contains_key(k) implies #[trigger] out@.contains_key(k) by {
            map.lemma_domain_positions();
            let j = choose|j: int| 0 <= j < map.pairs().len() && map.pairs()[j].0 == k;
            assert(exists|j: int| 0 <= j < i && map.pairs()[j].0 == k);
        }
        assert(out@.dom() =~= map@.dom());
    }
    Ok(out)
}

/// Whether `input` holds a `${`, the start of a reference.
pub fn contains_variables(input: &str) -> (r: bool)
    ensures
        r == has_reference(input@),
{
    let v = chars_of(input);
    let mut i: usize = 0;
    while i < v.len()
        invariant
            v@ == input@,
            i <= v@.len(),
            forall|j: int| 0 <= j < i && j + 1 < v@.len() ==> !(#[trigger] v@[j] == '$' && v@[j + 1] == '{'),
        decreases v@.len() - i,
    {
        if v[i] == '$' && i + 1 < v.len() && v[i + 1] == '{' {
            return true;
        }
        i = i + 1;
    }
    false
}

/// `$$` stands for a single `$`, whatever the context.
pub proof fn lemma_escaped_dollar(c: ContextModel)
    ensures
        interp(seq!['$', '$'], c) == Some(seq!['$']),
{
    let s = seq!['$', '$'];
    assert(s.skip(2) =~= Seq::<char>::empty());
    assert(interp(s.skip(2), c) == Some(Seq::<char>::empty()));
    assert(seq!['$'] + Seq::<char>::empty() =~= seq!['$']);
}

/// `${var.x}` stands for the value that the context gives variable `x`.
pub proof fn lemma_variable_reference(c: ContextModel, x: Seq<char>, v: Seq<char>)
    requires
        x.len() > 0,
        forall|i: int| 0 <= i < x.len() ==> is_ref_char(#[trigger] x[i]),
    ensures
        interp(
            seq!['$', '{'] + var_prefix() + x + seq!['}'],
            ContextModel { variables: c.variables.insert(x, v), ..c },
        ) == Some(v),
{
    let c2 = ContextModel { variables: c.variables.insert(x, v), ..c };
    lemma_reference_of(c2, var_prefix() + x);
    assert(seq!['$', '{'] + var_prefix() + x + seq!['}'] =~= seq!['$', '{'] + (var_prefix() + x)
        + seq!['}']);
    assert((var_prefix() + x).skip(4) =~= x);
    assert((var_prefix() + x).take(4) =~= var_prefix());
    assert(v + Seq::<char>::empty() =~= v);
}

/// `${var.x}` fails where the context does not define variable `x`.
pub proof fn lemma_undefined_variable(c: ContextModel, x: Seq<char>)
    requires
        x.len() > 0,
        forall|i: int| 0 <= i < x.len() ==> is_ref_char(#[trigger] x[i]),
        !c.variables.contains_key(x),
    ensures
        interp(seq!['$', '{'] + var_prefix() + x + seq!['}'], c) is None,
{
    lemma_reference_of(c, var_prefix() + x);
    assert(seq!['$', '{'] + var_prefix() + x + seq!['}'] =~= seq!['$', '{'] + (var_prefix() + x)
        + seq!['}']);
    assert((var_prefix() + x).skip(4) =~= x);
    assert((var_prefix() + x).take(4) =~= var_prefix());
}

/// A whole string `${name}` stands for what `name` resolves to.
proof fn lemma_reference_of(c: ContextModel, name: Seq<char>)
    requires
        name.len() > 0,
        forall|i: int| 0 <= i < name.len() ==> is_ref_char(#[trigger] name[i]),
    ensures
        resolve_name(name, c) is Some ==> interp(seq!['$', '{'] + name + seq!['}'], c) == Some(
            resolve_name(name, c)->0,
        ),
        resolve_name(name, c) is None ==> interp(seq!['$', '{'] + name + seq!['}'], c) is None,
{
    let s = seq!['$', '{'] + name + seq!['}'];
    let body = s.skip(2);
    assert(body =~= name + seq!['}']);
    assert forall|m: int| 0 <= m < name.len() implies is_ref_char(#[trigger] body[m]) by {
        assert(body[m] == name[m]);
    }
    assert(body[name.len() as int] == '}');
    lemma_ref_run_exact(body, name.len() as int);
    assert(body.take(name.len() as int) =~= name);
    assert(body.skip(name.len() + 1 as int) =~= Seq::<char>::empty());
    assert(interp(Seq::<char>::empty(), c) == Some(Seq::<char>::empty()));
    match resolve_name(name, c) {
        Some(v) => {
            assert(v + Seq::<char>::empty() =~= v);
        },
        None => {},
    }
}

/// A string with no `${` and no `$$` is left as it is, in every context.
pub proof fn lemma_plain_text_unchanged(s: Seq<char>, c: ContextModel)
    requires
        !has_reference(s),
        !has_escape(s),
    ensures
        interp(s, c) == Some(s),
    decreases s.len(),
{
    if s.len() > 0 {
        let t = s.skip(1);
        if s.len() >= 2 && s[0] == '$' && s[1] == '$' {
            assert(has_escape(s));
        }
        if s.len() >= 2 && s[0] == '$' && s[1] == '{' {
            assert(has_reference(s));
        }
        assert(!(s.len() >= 2 && s[0] == '$' && s[1] == '{'));
        assert(!has_reference(t)) by {
            if has_reference(t) {
                let i = choose|i: int| 0 <= i < t.len() - 1 && #[trigger] t[i] == '$' && t[i + 1] == '{';
                assert(s[i + 1] == '$' && s[i + 2] == '{');
            }
        }
        assert(!has_escape(t)) by {
            if has_escape(t) {
                let i = choose|i: int| 0 <= i < t.len() - 1 && #[trigger] t[i] == '$' && t[i + 1] == '$';
                assert(s[i + 1] == '$' && s[i + 2] == '$');
            }
        }
        lemma_plain_text_unchanged(t, c);
        assert(seq![s[0]] + t =~= s);
    }
}

/// A string with a `${` and no `$$` fails in the empty context, so some
/// context changes it.
pub proof fn lemma_reference_fails_without_values(s: Seq<char>)
    requires
        has_reference(s),
        !has_escape(s),
    ensures
        interp(s, empty_context()) is None,
    decreases s.len(),
{
    let c = empty_context();
    let i = choose|i: int| 0 <= i < s.len() - 1 && #[trigger] s[i] == '$' && s[i + 1] == '{';
    if s[0] == '$' && s[1] == '$' {
        assert(has_escape(s));
    }
    if s[0] == '$' && s[1] == '{' {
        let body = s.skip(2);
        let n = ref_run(body);
        lemma_ref_run_bound(body);
        if !(n < body.len() && body[n as int] != '}') && n != 0 {
            let name = body.take(n as int);
            assert(resolve_name(name, c) is None);
        }
    } else {
        let t = s.skip(1);
        assert(i >= 1);
        assert(t[i - 1] == '$' && t[i] == '{');
        assert(has_reference(t));
        assert(!has_escape(t)) by {
            if has_escape(t) {
                let k = choose|k: int| 0 <= k < t.len() - 1 && #[trigger] t[k] == '$' && t[k + 1] == '$';
                assert(s[k + 1] == '$' && s[k + 2] == '$');
            }
        }
        lemma_reference_fails_without_values(t);
    }
}

} // verus!
