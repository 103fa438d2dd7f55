//! Conditions that gate a beam's execution.

use vstd::prelude::*;

use crate::text::copy_str;

verus! {

/// A condition that decides whether a beam runs.
#[derive(Debug)]
pub enum Condition {
    /// The file exists (relative to the working directory).
    FileExists(String),
    /// The environment variable is set.
    EnvSet(String),
    /// The environment variable is set to the value.
    EnvEquals { name: String, value: String },
    /// The command's success matches `expect_success`.
    Command { run: String, expect_success: bool },
    /// Every condition holds.
    And(Vec<Condition>),
    /// Some condition holds.
    Or(Vec<Condition>),
    /// The condition does not hold.
    Not(Box<Condition>),
}

/// A copy of `c`.
fn copy_condition(c: &Condition) -> (r: Condition)
    ensures
        is_leaf(r) == is_leaf(*c),
    decreases c,
{
    match c {
        Condition::FileExists(p) => Condition::FileExists(p.clone()),
        Condition::EnvSet(n) => Condition::EnvSet(n.clone()),
        Condition::EnvEquals { name, value } => Condition::EnvEquals {
            name: name.clone(),
            value: value.clone(),
        },
        Condition::Command { run, expect_success } => Condition::Command {
            run: run.clone(),
            expect_success: *expect_success,
        },
        Condition::And(cs) => Condition::And(copy_list(c, cs)),
        Condition::Or(cs) => Condition::Or(copy_list(c, cs)),
        Condition::Not(inner) => Condition::Not(Box::new(copy_condition(inner))),
    }
}

/// A copy of the list `cs`, which stands in `parent`.
fn copy_list(parent: &Condition, cs: &Vec<Condition>) -> (r: Vec<Condition>)
    requires
        (parent matches Condition::And(l) && l == *cs) || (parent matches Condition::Or(l) && l
            == *cs),
    ensures
        r@.len() == cs@.len(),
    decreases parent, 0nat,
{
    let mut r: Vec<Condition> = Vec::new();
    let mut i: usize = 0;
    while i < cs.len()
        invariant
            (parent matches Condition::And(l) && l == *cs) || (parent matches Condition::Or(l) && l
                == *cs),
            i <= cs@.len(),
            r@.len() == i,
        decreases cs@.len() - i,
    {
        proof {
            broadcast use vstd::std_specs::vec::axiom_vec_index_decreases;
            assert(decreases_to!(*cs => cs[i as int]));
        }
        r.push(copy_condition(&cs[i]));
        i = i + 1;
    }
    r
}

impl Clone for Condition {
    fn clone(&self) -> (r: Condition) {
        copy_condition(self)
    }
}

impl Condition {
    /// A file-exists condition.
    pub fn file_exists(path: &str) -> (r: Condition)
        ensures
            r matches Condition::FileExists(p) && p@ == path@,
    {
        Condition::FileExists(copy_str(path))
    }

    /// An environment-variable-set condition.
    pub fn env_set(name: &str) -> (r: Condition)
        ensures
            r matches Condition::EnvSet(n) && n@ == name@,
    {
        Condition::EnvSet(copy_str(name))
    }

    /// An environment-variable-equals condition.
    pub fn env_equals(name: &str, value: &str) -> (r: Condition)
        ensures
            r matches Condition::EnvEquals { name: n, value: v } && n@ == name@ && v@ == value@,
    {
        Condition::EnvEquals { name: copy_str(name), value: copy_str(value) }
    }

    /// A command condition.
    pub fn command(run: &str, expect_success: bool) -> (r: Condition)
        ensures
            r matches Condition::Command { run: c, expect_success: e } && c@ == run@ && e
                == expect_success,
    {
        Condition::Command { run: copy_str(run), expect_success }
    }

    /// All of the conditions.
    pub fn and(conditions: Vec<Condition>) -> (r: Condition)
        ensures
            r == Condition::And(conditions),
    {
        Condition::And(conditions)
    }

    /// Any of the conditions.
    pub fn or(conditions: Vec<Condition>) -> (r: Condition)
        ensures
            r == Condition::Or(conditions),
    {
        Condition::Or(conditions)
    }

    /// The negation of the condition.
    pub fn negate(condition: Condition) -> (r: Condition)
        ensures
            r == Condition::Not(Box::new(condition)),
    {
        Condition::Not(Box::new(condition))
    }
}

/// Whether a condition is a leaf: one that the caller evaluates.
pub open spec fn is_leaf(c: Condition) -> bool {
    !(c is And) && !(c is Or) && !(c is Not)
}

/// Evaluates `c` from left to right with short-circuiting `And` and `Or`,
/// taking the value of each leaf it reaches from `answers`, starting at
/// `answers[k]`. Gives the value, or `None` where it reaches a leaf beyond
/// the answers, and the index of the next answer.
pub open spec fn eval_with(c: Condition, answers: Seq<bool>, k: int) -> (Option<bool>, int)
    decreases c, 1nat, 0int,
{
    match c {
        Condition::And(cs) => eval_list(c, 0, answers, k),
        Condition::Or(cs) => eval_list(c, 0, answers, k),
        Condition::Not(inner) => {
            let (v, k2) = eval_with(*inner, answers, k);
            (
                match v {
                    Some(b) => Some(!b),
                    None => None,
                },
                k2,
            )
        },
        _ => if 0 <= k < answers.len() {
            (Some(answers[k]), k + 1)
        } else {
            (None, k)
        },
    }
}

/// Evaluates the children of the `And` or `Or` condition `parent` from
/// child `i` on.
pub open spec fn eval_list(parent: Condition, i: int, answers: Seq<bool>, k: int) -> (Option<bool>, int)
    decreases parent, 0nat, children(parent).len() - i,
{
    let cs = children(parent);
    let is_and = parent is And;
    if i < 0 || i >= cs.len() {
        (Some(is_and), k)
    } else {
        let (v, k2) = eval_with(cs[i], answers, k);
        match v {
            None => (None, k2),
            Some(b) => if b != is_and {
                (Some(b), k2)
            } else {
                eval_list(parent, i + 1, answers, k2)
            },
        }
    }
}

/// The children of an `And` or `Or` condition.
pub open spec fn children(c: Condition) -> Seq<Condition> {
    match c {
        Condition::And(cs) => cs@,
        Condition::Or(cs) => cs@,
        _ => Seq::empty(),
    }
}

/// The leaf at which evaluating `c` stops for want of an answer, where
/// `eval_with(c, answers, k)` gives no value.
pub open spec fn stuck_leaf(c: Condition, answers: Seq<bool>, k: int) -> Condition
    decreases c, 1nat, 0int,
{
    match c {
        Condition::And(_) => stuck_list(c, 0, answers, k),
        Condition::Or(_) => stuck_list(c, 0, answers, k),
        Condition::Not(inner) => stuck_leaf(*inner, answers, k),
        _ => c,
    }
}

/// The leaf at which evaluating the children of `parent` from child `i`
/// stops for want of an answer.
pub open spec fn stuck_list(parent: Condition, i: int, answers: Seq<bool>, k: int) -> Condition
    decreases parent, 0nat, children(parent).len() - i,
{
    let cs = children(parent);
    let is_and = parent is And;
    if i < 0 || i >= cs.len() {
        parent
    } else {
        let (v, k2) = eval_with(cs[i], answers, k);
        match v {
            None => stuck_leaf(cs[i], answers, k),
            Some(b) => if b != is_and {
                parent
            } else {
                stuck_list(parent, i + 1, answers, k2)
            },
        }
    }
}

/// The leaf whose value evaluating `c` from left to right, with
/// short-circuiting, needs next, given the values found so far.
pub open spec fn next_leaf(c: Condition, answers: Seq<bool>) -> Condition {
    stuck_leaf(c, answers, 0)
}

/// A copy of a leaf condition.
fn copy_leaf(c: &Condition) -> (r: Condition)
    requires
        is_leaf(*c),
    ensures
        r == *c,
{
    match c {
        Condition::FileExists(p) => Condition::FileExists(p.clone()),
        Condition::EnvSet(n) => Condition::EnvSet(n.clone()),
        Condition::EnvEquals { name, value } => Condition::EnvEquals { name: name.clone(), value: value.clone() },
        Condition::Command { run, expect_success } => Condition::Command { run: run.clone(), expect_success: *expect_success },
        _ => Condition::EnvSet(String::new()),
    }
}

/// What evaluating a condition needs next.
#[derive(Debug)]
pub enum ConditionStep {
    /// The value of this leaf, to be appended to the answers.
    Probe(Condition),
    /// The condition's value.
    Done(bool),
}

/// One step of evaluating `c` with the leaf values found so far: its
/// value, or the next leaf whose value is needed.
pub fn condition_step(c: &Condition, answers: &Vec<bool>) -> (r: ConditionStep)
    ensures
        match r {
            ConditionStep::Done(b) => eval_with(*c, answers@, 0).0 == Some(b),
            ConditionStep::Probe(leaf) => eval_with(*c, answers@, 0).0 is None && leaf == next_leaf(*c, answers@)
                && is_leaf(leaf),
        },
{
    let (v, _, leaf) = eval_exec(c, answers, 0);
    match v {
        Some(b) => ConditionStep::Done(b),
        None => match leaf {
            Some(l) => ConditionStep::Probe(l),
            None => {
                proof {
                    assert(false);
                }
                ConditionStep::Done(false)
            },
        },
    }
}

fn eval_exec(c: &Condition, answers: &Vec<bool>, k: usize) -> (r: (Option<bool>, usize, Option<Condition>))
    requires
        k <= answers@.len(),
    ensures
        (r.0, r.1 as int) == eval_with(*c, answers@, k as int),
        r.1 <= answers@.len(),
        r.0 is None ==> (r.2 matches Some(l) && is_leaf(l) && l == stuck_leaf(*c, answers@, k as int)),
    decreases c, 1nat, 0int,
{
    match c {
        Condition::And(cs) => eval_list_exec(c, cs, 0, answers, k),
        Condition::Or(cs) => eval_list_exec(c, cs, 0, answers, k),
        Condition::Not(inner) => {
            let (v, k2, leaf) = eval_exec(inner, answers, k);
            let v2 = match v {
                Some(b) => Some(!b),
                None => None,
            };
            (v2, k2, leaf)
        },
        _ => if k < answers.len() {
            (Some(answers[k]), k + 1, None)
        } else {
            (None, k, Some(copy_leaf(c)))
        },
    }
}

fn eval_list_exec(parent: &Condition, cs: &Vec<Condition>, i: usize, answers: &Vec<bool>, k: usize) -> (r: (
    Option<bool>,
    usize,
    Option<Condition>,
))
    requires
        k <= answers@.len(),
        i <= cs@.len(),
        (parent matches Condition::And(l) && l == *cs) || (parent matches Condition::Or(l) && l == *cs),
    ensures
        (r.0, r.1 as int) == eval_list(*parent, i as int, answers@, k as int),
        r.1 <= answers@.len(),
        r.0 is None ==> (r.2 matches Some(l) && is_leaf(l) && l == stuck_list(*parent, i as int, answers@, k as int)),
    decreases parent, 0nat, cs@.len() - i,
{
    let is_and = match parent {
        Condition::And(_) => true,
        _ => false,
    };
    assert(children(*parent) == cs@);
    if i >= cs.len() {
        return (Some(is_and), k, None);
    }
    proof {
        broadcast use vstd::std_specs::vec::axiom_vec_index_decreases;
        assert(decreases_to!(*cs => cs[i as int]));
    }
    let (v, k2, leaf) = eval_exec(&cs[i], answers, k);
    match v {
        None => (None, k2, leaf),
        Some(b) => if b != is_and {
            (Some(b), k2, None)
        } else {
            eval_list_exec(parent, cs, i + 1, answers, k2)
        },
    }
}

} // verus!
