//! The files of an env directory: what each one names and in which order
//! they apply.

use vstd::prelude::*;
use vstd::string::*;
use crate::env::ActionType;
use crate::path_list::views;
use crate::text::chars_of;

verus! {

/// The index of the first `.` of `s`, or its length when it has none.
pub open spec fn dot_pos(s: Seq<char>) -> nat
    decreases s.len(),
{
    if s.len() == 0 || s[0] == '.' {
        0
    } else {
        1 + dot_pos(s.drop_first())
    }
}

/// The variable that the file `file_name` sets: the name up to its first `.`.
pub open spec fn file_var_name(file_name: Seq<char>) -> Seq<char> {
    file_name.subrange(0, dot_pos(file_name) as int)
}

/// The suffix of the file `file_name`: what follows its first `.`, if any.
pub open spec fn file_suffix(file_name: Seq<char>) -> Seq<char> {
    if dot_pos(file_name) < file_name.len() {
        file_name.subrange(dot_pos(file_name) as int + 1, file_name.len() as int)
    } else {
        Seq::empty()
    }
}

/// The variable and the action that the file `file_name` stands for, or
/// `None` for a delimiter file or a file with an unknown suffix.
pub open spec fn env_file_action(file_name: Seq<char>, default_action: ActionType) -> Option<
    (Seq<char>, ActionType),
> {
    let suffix = file_suffix(file_name);
    let name = file_var_name(file_name);
    if suffix == "override"@ {
        Some((name, ActionType::Override))
    } else if suffix == "default"@ {
        Some((name, ActionType::Default))
    } else if suffix == "append"@ {
        Some((name, ActionType::Append))
    } else if suffix == "prepend"@ {
        Some((name, ActionType::Prepend))
    } else if suffix.len() == 0 {
        Some((name, default_action))
    } else {
        None
    }
}

/// `dot_pos` is the first index holding a `.`.
pub proof fn lemma_dot_pos(s: Seq<char>, k: int)
    requires
        0 <= k <= s.len(),
        forall|j: int| 0 <= j < k ==> #[trigger] s[j] != '.',
        k == s.len() || s[k] == '.',
    ensures
        dot_pos(s) == k,
    decreases k,
{
    if k > 0 {
        let t = s.drop_first();
        assert(s[0] != '.');
        assert forall|j: int| 0 <= j < k - 1 implies #[trigger] t[j] != '.' by {
            assert(t[j] == s[j + 1]);
        }
        if k < s.len() {
            assert(t[k - 1] == s[k]);
        }
        lemma_dot_pos(t, k - 1);
    }
}

/// The suffix that names `action`.
pub open spec fn action_suffix(action: ActionType) -> Seq<char> {
    match action {
        ActionType::Override => "override"@,
        ActionType::Default => "default"@,
        ActionType::Append => "append"@,
        ActionType::Prepend => "prepend"@,
    }
}

/// A file without a suffix applies as the file with the default action's
/// suffix does: both set the variable `name` (which holds no `.`) with that
/// action, whatever default the suffixed file is read with.
pub proof fn lemma_unsuffixed_is_default(
    name: Seq<char>,
    default_action: ActionType,
    other_default: ActionType,
)
    requires
        forall|j: int| 0 <= j < name.len() ==> #[trigger] name[j] != '.',
    ensures
        env_file_action(name, default_action) == Some((name, default_action)),
        env_file_action(name + seq!['.'] + action_suffix(default_action), other_default) == Some(
            (name, default_action),
        ),
{
    lemma_dot_pos(name, name.len() as int);
    assert(name.subrange(0, name.len() as int) =~= name);
    let full = name + seq!['.'] + action_suffix(default_action);
    assert forall|j: int| 0 <= j < name.len() implies #[trigger] full[j] != '.' by {
        assert(full[j] == name[j]);
    }
    assert(full[name.len() as int] == '.');
    lemma_dot_pos(full, name.len() as int);
    assert(full.subrange(0, name.len() as int) =~= name);
    assert(full.subrange(name.len() as int + 1, full.len() as int) =~= action_suffix(default_action));
    reveal_strlit("override");
    reveal_strlit("default");
    reveal_strlit("append");
    reveal_strlit("prepend");
    assert("override"@ != "default"@) by { assert("override"@[0] != "default"@[0]); }
    assert("override"@ != "append"@) by { assert("override"@[0] != "append"@[0]); }
    assert("override"@ != "prepend"@) by { assert("override"@[0] != "prepend"@[0]); }
    assert("default"@ != "append"@) by { assert("default"@[0] != "append"@[0]); }
    assert("default"@ != "prepend"@) by { assert("default"@[0] != "prepend"@[0]); }
    assert("append"@ != "prepend"@) by { assert("append"@[0] != "prepend"@[0]); }
}

/// The variable and the action that the file `file_name` of an env
/// directory stands for; `None` for a `.delim` file or an unknown suffix.
pub fn parse_env_file_name(file_name: &str, default_action: ActionType) -> (res: Option<
    (String, ActionType),
>)
    ensures
        match res {
            Some((name, action)) => env_file_action(file_name@, default_action) == Some(
                (name@, action),
            ),
            None => env_file_action(file_name@, default_action) is None,
        },
{
    let c = chars_of(file_name);
    let len = c.len();
    let mut k: usize = 0;
    while k < len && c[k] != '.'
        invariant
            c@ == file_name@,
            len == c.len(),
            k <= len,
            forall|j: int| 0 <= j < k ==> #[trigger] c@[j] != '.',
        decreases len - k,
    {
        k = k + 1;
    }
    proof {
        lemma_dot_pos(file_name@, k as int);
    }
    let name = String::from_str(file_name.substring_char(0, k));
    let suffix = if k < len {
        String::from_str(file_name.substring_char(k + 1, len))
    } else {
        String::new()
    };
    if suffix == String::from_str("override") {
        Some((name, ActionType::Override))
    } else if suffix == String::from_str("default") {
        Some((name, ActionType::Default))
    } else if suffix == String::from_str("append") {
        Some((name, ActionType::Append))
    } else if suffix == String::from_str("prepend") {
        Some((name, ActionType::Prepend))
    } else if suffix.as_str().is_empty() {
        Some((name, default_action))
    } else {
        None
    }
}

/// The file beside the env files of `name` whose contents give the
/// delimiter for `action`: `<name>.delim` for `Append` and `Prepend`, none
/// for the actions that use no delimiter.
pub open spec fn delim_file_spec(name: Seq<char>, action: ActionType) -> Option<Seq<char>> {
    match action {
        ActionType::Append | ActionType::Prepend => Some(name + ".delim"@),
        ActionType::Override | ActionType::Default => None,
    }
}

/// The name of the delimiter file for the variable `name` and `action`, if
/// `action` uses a delimiter.
pub fn delim_file_name(name: &str, action: ActionType) -> (res: Option<String>)
    ensures
        match res {
            Some(f) => delim_file_spec(name@, action) == Some(f@),
            None => delim_file_spec(name@, action) is None,
        },
{
    match action {
        ActionType::Append | ActionType::Prepend => {
            let mut f = String::from_str(name);
            f.append(".delim");
            Some(f)
        },
        ActionType::Override | ActionType::Default => None,
    }
}

/// `a` comes no later than `b` in the order of their characters' code
/// points, a prefix first.
pub open spec fn lex_le(a: Seq<char>, b: Seq<char>) -> bool
    decreases a.len(),
{
    if a.len() == 0 {
        true
    } else if b.len() == 0 {
        false
    } else if a[0] != b[0] {
        a[0] < b[0]
    } else {
        lex_le(a.drop_first(), b.drop_first())
    }
}

/// `names` is in the order of `lex_le`.
pub open spec fn sorted_names(names: Seq<Seq<char>>) -> bool {
    forall|i: int, j: int| 0 <= i < j < names.len() ==> lex_le(#[trigger] names[i], #[trigger] names[j])
}

/// Calls `slice::sort` on strings, a stable sort by `str`'s order, which
/// compares the bytes and so the characters' code points, a prefix first:
/// the strings stay the same, in sorted order.
#[verifier::external_body]
fn sort_strings(v: &mut Vec<String>)
    ensures
        views(final(v)@).to_multiset() == views(old(v)@).to_multiset(),
        sorted_names(views(final(v)@)),
{
    v.sort();
}

/// How one file of an env directory applies.
pub struct EnvFileAction {
    /// The file's name.
    pub file_name: String,
    /// The variable that it modifies.
    pub name: String,
    /// How it modifies it.
    pub action: ActionType,
}

impl View for EnvFileAction {
    type V = (Seq<char>, Seq<char>, ActionType);

    open spec fn view(&self) -> (Seq<char>, Seq<char>, ActionType) {
        (self.file_name@, self.name@, self.action)
    }
}

/// The files of `names`, in this order, that apply, each with its variable
/// and action.
pub open spec fn env_dir_plan(names: Seq<Seq<char>>, default_action: ActionType) -> Seq<
    (Seq<char>, Seq<char>, ActionType),
>
    decreases names.len(),
{
    if names.len() == 0 {
        Seq::empty()
    } else {
        let init = env_dir_plan(names.drop_last(), default_action);
        match env_file_action(names.last(), default_action) {
            Some((name, action)) => init.push((names.last(), name, action)),
            None => init,
        }
    }
}

/// A file added after the others adds exactly one step for itself, at the
/// end of the plan, when its name gives a variable and an action, whatever
/// the other files name; otherwise it adds none.
pub proof fn lemma_plan_push(names: Seq<Seq<char>>, file: Seq<char>, default_action: ActionType)
    ensures
        env_file_action(file, default_action) is Some ==> env_dir_plan(
            names.push(file),
            default_action,
        ) == env_dir_plan(names, default_action).push(
            (
                file,
                env_file_action(file, default_action).unwrap().0,
                env_file_action(file, default_action).unwrap().1,
            ),
        ),
        env_file_action(file, default_action) is None ==> env_dir_plan(
            names.push(file),
            default_action,
        ) == env_dir_plan(names, default_action),
{
    assert(names.push(file).drop_last() =~= names);
    assert(names.push(file).last() == file);
}

/// The plan has a step for every file whose name gives a variable and an
/// action, with that variable and action, and every step is such a file's.
pub proof fn lemma_plan_complete(names: Seq<Seq<char>>, default_action: ActionType)
    ensures
        forall|i: int|
            0 <= i < names.len() && (#[trigger] env_file_action(names[i], default_action)) is Some
                ==> env_dir_plan(names, default_action).contains(
                (
                    names[i],
                    env_file_action(names[i], default_action).unwrap().0,
                    env_file_action(names[i], default_action).unwrap().1,
                ),
            ),
        forall|k: int|
            0 <= k < env_dir_plan(names, default_action).len() ==> exists|i: int|
                0 <= i < names.len() && names[i] == (#[trigger] env_dir_plan(
                    names,
                    default_action,
                )[k]).0 && env_file_action(names[i], default_action) == Some(
                    (
                        env_dir_plan(names, default_action)[k].1,
                        env_dir_plan(names, default_action)[k].2,
                    ),
                ),
    decreases names.len(),
{
    if names.len() > 0 {
        let init = names.drop_last();
        let file = names.last();
        lemma_plan_complete(init, default_action);
        assert(init.push(file) =~= names);
        lemma_plan_push(init, file, default_action);
        let before = env_dir_plan(init, default_action);
        let plan = env_dir_plan(names, default_action);
        assert forall|i: int|
            0 <= i < names.len() && (#[trigger] env_file_action(names[i], default_action)) is Some
                implies plan.contains(
            (
                names[i],
                env_file_action(names[i], default_action).unwrap().0,
                env_file_action(names[i], default_action).unwrap().1,
            ),
        ) by {
            if i < init.len() {
                assert(names[i] == init[i]);
                assert(env_file_action(init[i], default_action) is Some);
                let step = (
                    names[i],
                    env_file_action(names[i], default_action).unwrap().0,
                    env_file_action(names[i], default_action).unwrap().1,
                );
                let k = choose|k: int| 0 <= k < before.len() && before[k] == step;
                assert(plan[k] == step);
            } else {
                assert(plan[before.len() as int] == (
                    names[i],
                    env_file_action(names[i], default_action).unwrap().0,
                    env_file_action(names[i], default_action).unwrap().1,
                ));
            }
        }
        assert forall|k: int| 0 <= k < plan.len() implies exists|i: int|
            0 <= i < names.len() && names[i] == (#[trigger] plan[k]).0 && env_file_action(
                names[i],
                default_action,
            ) == Some((plan[k].1, plan[k].2)) by {
            if k < before.len() {
                assert(plan[k] == before[k]);
                let i = choose|i: int|
                    0 <= i < init.len() && init[i] == (#[trigger] before[k]).0 && env_file_action(
                        init[i],
                        default_action,
                    ) == Some((before[k].1, before[k].2));
                assert(names[i] == init[i]);
            } else {
                assert(names[names.len() - 1] == file);
            }
        }
    }
}

/// The plan of files in name order is in name order.
pub proof fn lemma_plan_sorted(names: Seq<Seq<char>>, default_action: ActionType)
    requires
        sorted_names(names),
    ensures
        forall|k: int, l: int|
            0 <= k < l < env_dir_plan(names, default_action).len() ==> lex_le(
                (#[trigger] env_dir_plan(names, default_action)[k]).0,
                (#[trigger] env_dir_plan(names, default_action)[l]).0,
            ),
    decreases names.len(),
{
    if names.len() > 0 {
        let init = names.drop_last();
        let file = names.last();
        assert(sorted_names(init)) by {
            assert forall|i: int, j: int| 0 <= i < j < init.len() implies lex_le(
                #[trigger] init[i],
                #[trigger] init[j],
            ) by {
                assert(init[i] == names[i] && init[j] == names[j]);
            }
        }
        lemma_plan_sorted(init, default_action);
        lemma_plan_complete(init, default_action);
        assert(init.push(file) =~= names);
        lemma_plan_push(init, file, default_action);
        let before = env_dir_plan(init, default_action);
        let plan = env_dir_plan(names, default_action);
        assert forall|k: int, l: int| 0 <= k < l < plan.len() implies lex_le(
            (#[trigger] plan[k]).0,
            (#[trigger] plan[l]).0,
        ) by {
            if l < before.len() {
                assert(plan[k] == before[k] && plan[l] == before[l]);
            } else {
                assert(plan[k] == before[k]);
                assert(plan[l].0 == file);
                let i = choose|i: int|
                    0 <= i < init.len() && init[i] == (#[trigger] before[k]).0 && env_file_action(
                        init[i],
                        default_action,
                    ) == Some((before[k].1, before[k].2));
                assert(names[i] == init[i]);
                assert(lex_le(names[i], names[names.len() - 1]));
            }
        }
    }
}

/// The views of a sequence of planned files.
pub open spec fn plan_views(v: Seq<EnvFileAction>) -> Seq<(Seq<char>, Seq<char>, ActionType)> {
    v.map_values(|a: EnvFileAction| a@)
}

/// The files of an env directory that apply, in the order of their names,
/// each with its variable and action; `file_names` are the names of the
/// directory's entries that are not directories.
pub fn plan_env_files(file_names: Vec<String>, default_action: ActionType) -> (res: Vec<
    EnvFileAction,
>)
    ensures
        exists|sorted: Seq<Seq<char>>|
            {
                &&& sorted.to_multiset() == views(file_names@).to_multiset()
                &&& sorted_names(sorted)
                &&& plan_views(res@) == env_dir_plan(sorted, default_action)
            },
        forall|i: int|
            0 <= i < file_names.len() && (#[trigger] env_file_action(
                file_names@[i]@,
                default_action,
            )) is Some ==> plan_views(res@).contains(
                (
                    file_names@[i]@,
                    env_file_action(file_names@[i]@, default_action).unwrap().0,
                    env_file_action(file_names@[i]@, default_action).unwrap().1,
                ),
            ),
        forall|k: int|
            0 <= k < res.len() ==> exists|i: int|
                0 <= i < file_names.len() && file_names@[i]@ == (#[trigger] res@[k]).file_name@
                    && env_file_action(file_names@[i]@, default_action) == Some(
                    (res@[k].name@, res@[k].action),
                ),
        forall|k: int, l: int|
            0 <= k < l < res.len() ==> lex_le(
                (#[trigger] res@[k]).file_name@,
                (#[trigger] res@[l]).file_name@,
            ),
{
    let mut names = file_names;
    sort_strings(&mut names);
    let ghost sorted = views(names@);
    let mut plan: Vec<EnvFileAction> = Vec::new();
    let mut i: usize = 0;
    assert(sorted.take(0) =~= Seq::<Seq<char>>::empty());
    assert(plan_views(plan@) =~= Seq::<(Seq<char>, Seq<char>, ActionType)>::empty());
    while i < names.len()
        invariant
            i <= names.len(),
            sorted == views(names@),
            sorted.to_multiset() == views(file_names@).to_multiset(),
            plan_views(plan@) == env_dir_plan(sorted.take(i as int), default_action),
        decreases names.len() - i,
    {
        assert(sorted.take(i + 1).drop_last() =~= sorted.take(i as int));
        assert(sorted.take(i + 1).last() == names@[i as int]@);
        let ghost before = plan_views(plan@);
        match parse_env_file_name(names[i].as_str(), default_action) {
            Some((name, action)) => {
                let entry = EnvFileAction { file_name: names[i].clone(), name, action };
                plan.push(entry);
                assert(plan_views(plan@) =~= before.push(entry@));
            },
            None => {},
        }
        i = i + 1;
    }
    assert(sorted.take(names.len() as int) =~= sorted);
    proof {
        broadcast use vstd::seq_lib::group_to_multiset_ensures;
        let given = views(file_names@);
        let steps = plan_views(plan@);
        lemma_plan_complete(sorted, default_action);
        lemma_plan_sorted(sorted, default_action);
        assert forall|i: int|
            0 <= i < file_names.len() && (#[trigger] env_file_action(
                file_names@[i]@,
                default_action,
            )) is Some implies steps.contains(
            (
                file_names@[i]@,
                env_file_action(file_names@[i]@, default_action).unwrap().0,
                env_file_action(file_names@[i]@, default_action).unwrap().1,
            ),
        ) by {
            assert(given[i] == file_names@[i]@);
            assert(given.contains(file_names@[i]@));
            assert(given.to_multiset().count(file_names@[i]@) > 0);
            assert(sorted.contains(file_names@[i]@));
            let j = choose|j: int| 0 <= j < sorted.len() && sorted[j] == file_names@[i]@;
            assert(env_file_action(sorted[j], default_action) is Some);
        }
        assert forall|k: int| 0 <= k < plan.len() implies exists|i: int|
            0 <= i < file_names.len() && file_names@[i]@ == (#[trigger] plan@[k]).file_name@
                && env_file_action(file_names@[i]@, default_action) == Some(
                (plan@[k].name@, plan@[k].action),
            ) by {
            assert(steps[k] == plan@[k]@);
            let j = choose|j: int|
                0 <= j < sorted.len() && sorted[j] == (#[trigger] steps[k]).0 && env_file_action(
                    sorted[j],
                    default_action,
                ) == Some((steps[k].1, steps[k].2));
            assert(sorted.contains(sorted[j]));
            assert(sorted.to_multiset().count(sorted[j]) > 0);
            assert(given.contains(sorted[j]));
            let i = choose|i: int| 0 <= i < given.len() && given[i] == sorted[j];
            assert(given[i] == file_names@[i]@);
        }
        assert forall|k: int, l: int| 0 <= k < l < plan.len() implies lex_le(
            (#[trigger] plan@[k]).file_name@,
            (#[trigger] plan@[l]).file_name@,
        ) by {
            assert(steps[k] == plan@[k]@ && steps[l] == plan@[l]@);
        }
    }
    plan
}

} // verus!
