//! The key/value bodies of hook and run blocks.
//!
//! The recognised keys are `commands`, `shell`, `working_dir` and
//! `fail_on_error` (for hooks) or `fail_fast` (for run blocks); any other
//! key is ignored. Where a key repeats, the last assignment wins.

use vstd::prelude::*;

use crate::ast::{AstHook, AstRun, AstValue, HookModel, ValueModel, fields_view, hook_view, lemma_array_view, opt_view, run_view, vals_view, value_view};
use crate::text::str_eq;

verus! {

/// The strings among the values, in order.
pub open spec fn string_elems(vals: Seq<ValueModel>) -> Seq<Seq<char>>
    decreases vals.len(),
{
    if vals.len() == 0 {
        Seq::empty()
    } else {
        match vals.last() {
            ValueModel::Str(s) => string_elems(vals.drop_last()).push(s),
            _ => string_elems(vals.drop_last()),
        }
    }
}

/// The commands that the fields give: the strings of the last `commands`
/// array, or none.
pub open spec fn field_commands(fields: Seq<(Seq<char>, ValueModel)>) -> Seq<Seq<char>>
    decreases fields.len(),
{
    if fields.len() == 0 {
        Seq::empty()
    } else if fields.last().0 == "commands"@ && fields.last().1 is Arr {
        string_elems(fields.last().1->Arr_0)
    } else {
        field_commands(fields.drop_last())
    }
}

/// The string that the last assignment of `key` gives, if it gives one.
pub open spec fn field_string(fields: Seq<(Seq<char>, ValueModel)>, key: Seq<char>) -> Option<Seq<char>>
    decreases fields.len(),
{
    if fields.len() == 0 {
        None
    } else if fields.last().0 == key {
        match fields.last().1 {
            ValueModel::Str(s) => Some(s),
            _ => None,
        }
    } else {
        field_string(fields.drop_last(), key)
    }
}

/// The boolean that the last assignment of `key` gives, if it gives one.
pub open spec fn field_bool(fields: Seq<(Seq<char>, ValueModel)>, key: Seq<char>) -> Option<bool>
    decreases fields.len(),
{
    if fields.len() == 0 {
        None
    } else if fields.last().0 == key {
        match fields.last().1 {
            ValueModel::Bool(b) => Some(b),
            _ => None,
        }
    } else {
        field_bool(fields.drop_last(), key)
    }
}

/// Whether a key means something in a hook or run block.
pub open spec fn is_known_key(k: Seq<char>) -> bool {
    k == "commands"@ || k == "shell"@ || k == "working_dir"@ || k == "fail_on_error"@ || k
        == "fail_fast"@
}

/// What a hook (`flag_key` is `fail_on_error`) or run block (`fail_fast`)
/// with these fields holds.
pub open spec fn block_model(fields: Seq<(Seq<char>, ValueModel)>, flag_key: Seq<char>) -> HookModel {
    HookModel {
        commands: field_commands(fields),
        shell: field_string(fields, "shell"@),
        working_dir: field_string(fields, "working_dir"@),
        flag: field_bool(fields, flag_key),
    }
}

proof fn lemma_keys_distinct()
    ensures
        "commands"@ != "shell"@,
        "commands"@ != "working_dir"@,
        "commands"@ != "fail_on_error"@,
        "commands"@ != "fail_fast"@,
        "shell"@ != "working_dir"@,
        "shell"@ != "fail_on_error"@,
        "shell"@ != "fail_fast"@,
        "working_dir"@ != "fail_on_error"@,
        "working_dir"@ != "fail_fast"@,
        "fail_on_error"@ != "fail_fast"@,
{
    reveal_strlit("commands");
    reveal_strlit("shell");
    reveal_strlit("working_dir");
    reveal_strlit("fail_on_error");
    reveal_strlit("fail_fast");
    assert("commands"@.len() == 8);
    assert("shell"@.len() == 5);
    assert("working_dir"@.len() == 11);
    assert("fail_on_error"@.len() == 13);
    assert("fail_fast"@.len() == 9);
}

fn strings_of(vals: &Vec<AstValue>) -> (r: Vec<String>)
    ensures
        r@.map_values(|s: String| s@) == string_elems(vals_view(vals@)),
{
    let mut r: Vec<String> = Vec::new();
    let mut i: usize = 0;
    while i < vals.len()
        invariant
            i <= vals@.len(),
            r@.map_values(|s: String| s@) == string_elems(vals_view(vals@.take(i as int))),
        decreases vals@.len() - i,
    {
        proof {
            assert(vals_view(vals@.take(i + 1)).drop_last() =~= vals_view(vals@.take(i as int)));
            assert(vals_view(vals@.take(i + 1)).last() == value_view(vals@[i as int]));
        }
        match &vals[i] {
            AstValue::String(s) => {
                let ghost r0 = r@;
                r.push(s.clone());
                assert(r@.map_values(|s: String| s@) =~= r0.map_values(|s: String| s@).push(s@));
            },
            _ => {},
        }
        i = i + 1;
    }
    assert(vals@.take(i as int) =~= vals@);
    r
}

fn string_value(v: &AstValue) -> (r: Option<String>)
    ensures
        opt_view(r) == match value_view(*v) {
            ValueModel::Str(s) => Some(s),
            _ => None::<Seq<char>>,
        },
{
    match v {
        AstValue::String(s) => Some(s.clone()),
        _ => None,
    }
}

fn bool_value(v: &AstValue) -> (r: Option<bool>)
    ensures
        r == match value_view(*v) {
            ValueModel::Bool(b) => Some(b),
            _ => None::<bool>,
        },
{
    match v {
        AstValue::Bool(b) => Some(*b),
        _ => None,
    }
}

/// The hook block that the fields describe.
pub fn hook_body(fields: &Vec<(String, AstValue)>) -> (r: AstHook)
    ensures
        hook_view(r) == block_model(fields_view(fields@), "fail_on_error"@),
{
    let mut hook = AstHook { commands: Vec::new(), shell: None, working_dir: None, fail_on_error: None };
    let mut i: usize = 0;
    assert(hook.commands@.map_values(|s: String| s@) =~= Seq::<Seq<char>>::empty());
    assert(fields_view(fields@.take(0)) =~= Seq::<(Seq<char>, ValueModel)>::empty());
    while i < fields.len()
        invariant
            i <= fields@.len(),
            hook_view(hook) == block_model(fields_view(fields@.take(i as int)), "fail_on_error"@),
        decreases fields@.len() - i,
    {
        let key = fields[i].0.as_str();
        let value = &fields[i].1;
        proof {
            assert(fields_view(fields@.take(i + 1)).drop_last() =~= fields_view(fields@.take(i as int)));
            assert(fields_view(fields@.take(i + 1)).last() == (fields@[i as int].0@, value_view(fields@[i as int].1)));
            lemma_keys_distinct();
        }
        if str_eq(key, "commands") {
            match value {
                AstValue::Array(arr) => {
                    proof {
                        lemma_array_view(*arr);
                    }
                    hook.commands = strings_of(arr);
                },
                _ => {},
            }
        } else if str_eq(key, "shell") {
            hook.shell = string_value(value);
        } else if str_eq(key, "working_dir") {
            hook.working_dir = string_value(value);
        } else if str_eq(key, "fail_on_error") {
            hook.fail_on_error = bool_value(value);
        }
        i = i + 1;
    }
    assert(fields@.take(i as int) =~= fields@);
    hook
}

/// The run block that the fields describe.
pub fn run_body(fields: &Vec<(String, AstValue)>) -> (r: AstRun)
    ensures
        run_view(r) == block_model(fields_view(fields@), "fail_fast"@),
{
    let mut run = AstRun { commands: Vec::new(), shell: None, working_dir: None, fail_fast: None };
    let mut i: usize = 0;
    assert(run.commands@.map_values(|s: String| s@) =~= Seq::<Seq<char>>::empty());
    assert(fields_view(fields@.take(0)) =~= Seq::<(Seq<char>, ValueModel)>::empty());
    while i < fields.len()
        invariant
            i <= fields@.len(),
            run_view(run) == block_model(fields_view(fields@.take(i as int)), "fail_fast"@),
        decreases fields@.len() - i,
    {
        let key = fields[i].0.as_str();
        let value = &fields[i].1;
        proof {
            assert(fields_view(fields@.take(i + 1)).drop_last() =~= fields_view(fields@.take(i as int)));
            assert(fields_view(fields@.take(i + 1)).last() == (fields@[i as int].0@, value_view(fields@[i as int].1)));
            lemma_keys_distinct();
        }
        if str_eq(key, "commands") {
            match value {
                AstValue::Array(arr) => {
                    proof {
                        lemma_array_view(*arr);
                    }
                    run.commands = strings_of(arr);
                },
                _ => {},
            }
        } else if str_eq(key, "shell") {
            run.shell = string_value(value);
        } else if str_eq(key, "working_dir") {
            run.working_dir = string_value(value);
        } else if str_eq(key, "fail_fast") {
            run.fail_fast = bool_value(value);
        }
        i = i + 1;
    }
    assert(fields@.take(i as int) =~= fields@);
    run
}

/// A field with an unrecognised key, wherever it stands, changes nothing
/// that a hook or run block's fields give.
pub proof fn lemma_unknown_key_ignored(
    before: Seq<(Seq<char>, ValueModel)>,
    field: (Seq<char>, ValueModel),
    after: Seq<(Seq<char>, ValueModel)>,
    flag_key: Seq<char>,
)
    requires
        !is_known_key(field.0),
        flag_key == "fail_on_error"@ || flag_key == "fail_fast"@,
    ensures
        block_model(before + seq![field] + after, flag_key) == block_model(before + after, flag_key),
    decreases after.len(),
{
    let with = before + seq![field] + after;
    let without = before + after;
    if after.len() == 0 {
        assert(with =~= before.push(field));
        assert(with.drop_last() =~= before);
        assert(without =~= before);
    } else {
        lemma_unknown_key_ignored(before, field, after.drop_last(), flag_key);
        assert(with.drop_last() =~= before + seq![field] + after.drop_last());
        assert(without.drop_last() =~= before + after.drop_last());
        assert(with.last() == after.last());
        assert(without.last() == after.last());
    }
}

} // verus!
