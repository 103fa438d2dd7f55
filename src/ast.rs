//! The syntax tree of a Beamfile.

use vstd::prelude::*;

verus! {

/// A parsed Beamfile: its top-level items in order.
#[derive(Debug)]
pub struct AstBeamfile {
    pub items: Vec<AstItem>,
}

/// A top-level item.
#[derive(Debug)]
pub enum AstItem {
    Variable(AstVariable),
    Beam(AstBeam),
    Default(String),
}

/// `variable "name" { ... }`.
#[derive(Debug)]
pub struct AstVariable {
    pub name: String,
    /// The key/value pairs of the body, in order.
    pub body: Vec<(String, AstValue)>,
}

/// `beam "name" { ... }`.
#[derive(Debug)]
pub struct AstBeam {
    pub name: String,
    pub body: Vec<AstBeamItem>,
}

/// An item of a beam's body.
#[derive(Debug)]
pub enum AstBeamItem {
    Description(String),
    DependsOn(Vec<String>),
    Condition(AstCondition),
    Env(Vec<(String, String)>),
    PreHook(AstHook),
    Run(AstRun),
    PostHook(AstHook),
    Inputs(Vec<String>),
    Outputs(Vec<String>),
}

/// A condition block.
#[derive(Debug)]
pub enum AstCondition {
    FileExists(String),
    EnvSet(String),
    EnvEquals { name: String, value: String },
    Command { run: String, expect_success: bool },
    And(Vec<AstCondition>),
    Or(Vec<AstCondition>),
    Not(Box<AstCondition>),
}

/// A `pre_hook` or `post_hook` block.
#[derive(Debug)]
pub struct AstHook {
    pub commands: Vec<String>,
    pub shell: Option<String>,
    pub working_dir: Option<String>,
    pub fail_on_error: Option<bool>,
}

/// A `run` block.
#[derive(Debug)]
pub struct AstRun {
    pub commands: Vec<String>,
    pub shell: Option<String>,
    pub working_dir: Option<String>,
    pub fail_fast: Option<bool>,
}

/// A value: a string, number, boolean, array or block.
#[derive(Debug)]
pub enum AstValue {
    String(String),
    Number(i64),
    Bool(bool),
    Array(Vec<AstValue>),
    Block(Vec<(String, AstValue)>),
}

impl AstValue {
    /// The string, where the value is one.
    pub fn as_string(&self) -> (r: Option<&String>)
        ensures
            match self {
                AstValue::String(s) => r == Some(s),
                _ => r is None,
            },
    {
        match self {
            AstValue::String(s) => Some(s),
            _ => None,
        }
    }

    /// The boolean, where the value is one.
    pub fn as_bool(&self) -> (r: Option<bool>)
        ensures
            match self {
                AstValue::Bool(b) => r == Some(*b),
                _ => r is None,
            },
    {
        match self {
            AstValue::Bool(b) => Some(*b),
            _ => None,
        }
    }

    /// The elements, where the value is an array.
    pub fn as_array(&self) -> (r: Option<&Vec<AstValue>>)
        ensures
            match self {
                AstValue::Array(a) => r == Some(a),
                _ => r is None,
            },
    {
        match self {
            AstValue::Array(a) => Some(a),
            _ => None,
        }
    }
}

/// What a value holds, over character sequences.
pub enum ValueModel {
    Str(Seq<char>),
    Num(int),
    Bool(bool),
    Arr(Seq<ValueModel>),
    Blk(Seq<(Seq<char>, ValueModel)>),
}

/// The value that a syntax-tree value stands for.
pub open spec fn value_view(v: AstValue) -> ValueModel
    decreases v, 1nat, 0int,
{
    match v {
        AstValue::String(s) => ValueModel::Str(s@),
        AstValue::Number(n) => ValueModel::Num(n as int),
        AstValue::Bool(b) => ValueModel::Bool(b),
        AstValue::Array(_) => ValueModel::Arr(elems_view(v, 0)),
        AstValue::Block(_) => ValueModel::Blk(pairs_view(v, 0)),
    }
}

/// The views of an array's elements from `i` on.
pub open spec fn elems_view(parent: AstValue, i: int) -> Seq<ValueModel>
    decreases parent, 0nat, match parent {
        AstValue::Array(a) => a@.len() - i,
        _ => 0,
    },
{
    match parent {
        AstValue::Array(a) => if 0 <= i < a@.len() {
            seq![value_view(a@[i])] + elems_view(parent, i + 1)
        } else {
            Seq::empty()
        },
        _ => Seq::empty(),
    }
}

/// The views of a block's pairs from `i` on.
pub open spec fn pairs_view(parent: AstValue, i: int) -> Seq<(Seq<char>, ValueModel)>
    decreases parent, 0nat, match parent {
        AstValue::Block(b) => b@.len() - i,
        _ => 0,
    },
{
    match parent {
        AstValue::Block(b) => if 0 <= i < b@.len() {
            seq![(b@[i].0@, value_view(b@[i].1))] + pairs_view(parent, i + 1)
        } else {
            Seq::empty()
        },
        _ => Seq::empty(),
    }
}

/// The views of a list of values.
pub open spec fn vals_view(vs: Seq<AstValue>) -> Seq<ValueModel> {
    vs.map_values(|v: AstValue| value_view(v))
}

/// The views of a list of key/value pairs.
pub open spec fn fields_view(ps: Seq<(String, AstValue)>) -> Seq<(Seq<char>, ValueModel)> {
    ps.map_values(|p: (String, AstValue)| (p.0@, value_view(p.1)))
}

proof fn lemma_elems_view(a: Vec<AstValue>, i: int)
    requires
        0 <= i <= a@.len(),
    ensures
        elems_view(AstValue::Array(a), i) == vals_view(a@).skip(i),
    decreases a@.len() - i,
{
    if i < a@.len() {
        lemma_elems_view(a, i + 1);
        assert(seq![value_view(a@[i])] + vals_view(a@).skip(i + 1) =~= vals_view(a@).skip(i));
    } else {
        assert(vals_view(a@).skip(i) =~= Seq::<ValueModel>::empty());
    }
}

proof fn lemma_pairs_view(b: Vec<(String, AstValue)>, i: int)
    requires
        0 <= i <= b@.len(),
    ensures
        pairs_view(AstValue::Block(b), i) == fields_view(b@).skip(i),
    decreases b@.len() - i,
{
    if i < b@.len() {
        lemma_pairs_view(b, i + 1);
        assert(seq![(b@[i].0@, value_view(b@[i].1))] + fields_view(b@).skip(i + 1) =~= fields_view(b@).skip(i));
    } else {
        assert(fields_view(b@).skip(i) =~= Seq::<(Seq<char>, ValueModel)>::empty());
    }
}

/// An array's view is the views of its elements.
pub proof fn lemma_array_view(a: Vec<AstValue>)
    ensures
        value_view(AstValue::Array(a)) == ValueModel::Arr(vals_view(a@)),
{
    lemma_elems_view(a, 0);
    assert(vals_view(a@).skip(0) =~= vals_view(a@));
}

/// A block's view is the views of its pairs.
pub proof fn lemma_block_view(b: Vec<(String, AstValue)>)
    ensures
        value_view(AstValue::Block(b)) == ValueModel::Blk(fields_view(b@)),
{
    lemma_pairs_view(b, 0);
    assert(fields_view(b@).skip(0) =~= fields_view(b@));
}

/// What a hook or run block holds: its commands, shell, working directory
/// and its `fail_on_error` or `fail_fast` flag where it sets one.
pub struct HookModel {
    pub commands: Seq<Seq<char>>,
    pub shell: Option<Seq<char>>,
    pub working_dir: Option<Seq<char>>,
    pub flag: Option<bool>,
}

/// The characters of an optional string.
pub open spec fn opt_view(o: Option<String>) -> Option<Seq<char>> {
    match o {
        Some(s) => Some(s@),
        None => None,
    }
}

/// The names in a list of strings.
pub open spec fn strs_view(v: Seq<String>) -> Seq<Seq<char>> {
    v.map_values(|x: String| x@)
}

pub open spec fn hook_view(h: AstHook) -> HookModel {
    HookModel {
        commands: strs_view(h.commands@),
        shell: opt_view(h.shell),
        working_dir: opt_view(h.working_dir),
        flag: h.fail_on_error,
    }
}

pub open spec fn run_view(r: AstRun) -> HookModel {
    HookModel {
        commands: strs_view(r.commands@),
        shell: opt_view(r.shell),
        working_dir: opt_view(r.working_dir),
        flag: r.fail_fast,
    }
}

/// What a condition block holds.
pub enum CondModel {
    FileExists(Seq<char>),
    EnvSet(Seq<char>),
    EnvEquals(Seq<char>, Seq<char>),
    Compound,
}

pub open spec fn cond_view(c: AstCondition) -> CondModel {
    match c {
        AstCondition::FileExists(p) => CondModel::FileExists(p@),
        AstCondition::EnvSet(n) => CondModel::EnvSet(n@),
        AstCondition::EnvEquals { name, value } => CondModel::EnvEquals(name@, value@),
        _ => CondModel::Compound,
    }
}

/// What an item of a beam's body holds.
pub enum ItemModel {
    Description(Seq<char>),
    DependsOn(Seq<Seq<char>>),
    Condition(CondModel),
    Env(Seq<(Seq<char>, Seq<char>)>),
    PreHook(HookModel),
    Run(HookModel),
    PostHook(HookModel),
    Inputs(Seq<Seq<char>>),
    Outputs(Seq<Seq<char>>),
}

/// The names in a list of string pairs.
pub open spec fn str_pairs_view(v: Seq<(String, String)>) -> Seq<(Seq<char>, Seq<char>)> {
    v.map_values(|p: (String, String)| (p.0@, p.1@))
}

pub open spec fn item_view(i: AstBeamItem) -> ItemModel {
    match i {
        AstBeamItem::Description(d) => ItemModel::Description(d@),
        AstBeamItem::DependsOn(v) => ItemModel::DependsOn(strs_view(v@)),
        AstBeamItem::Condition(c) => ItemModel::Condition(cond_view(c)),
        AstBeamItem::Env(e) => ItemModel::Env(str_pairs_view(e@)),
        AstBeamItem::PreHook(h) => ItemModel::PreHook(hook_view(h)),
        AstBeamItem::Run(r) => ItemModel::Run(run_view(r)),
        AstBeamItem::PostHook(h) => ItemModel::PostHook(hook_view(h)),
        AstBeamItem::Inputs(v) => ItemModel::Inputs(strs_view(v@)),
        AstBeamItem::Outputs(v) => ItemModel::Outputs(strs_view(v@)),
    }
}

pub open spec fn items_view(v: Seq<AstBeamItem>) -> Seq<ItemModel> {
    v.map_values(|i: AstBeamItem| item_view(i))
}

/// What a top-level item holds.
pub enum TopModel {
    Variable(Seq<char>, Seq<(Seq<char>, ValueModel)>),
    Beam(Seq<char>, Seq<ItemModel>),
    Default(Seq<char>),
}

pub open spec fn top_view(i: AstItem) -> TopModel {
    match i {
        AstItem::Variable(v) => TopModel::Variable(v.name@, fields_view(v.body@)),
        AstItem::Beam(b) => TopModel::Beam(b.name@, items_view(b.body@)),
        AstItem::Default(d) => TopModel::Default(d@),
    }
}

pub open spec fn tops_view(v: Seq<AstItem>) -> Seq<TopModel> {
    v.map_values(|i: AstItem| top_view(i))
}

} // verus!
