//! The environment of the launch process and the modifications that
//! buildpack layers make to it.

use vstd::prelude::*;
use vstd::string::*;
use crate::path_list::{
    colon_free, lemma_path_without_excludes, lemma_path_without_idempotent, lemma_split_append,
    lemma_split_single, path_without,
    path_without_entries, split_path_list, views,
};
use crate::text::chars_of;

verus! {

/// How an environment file modifies its variable.
#[derive(Debug, Clone, Copy, PartialEq, Eq, Structural)]
pub enum ActionType {
    /// Overwrites any existing value of the variable.
    Override,
    /// Sets the variable only if it does not already exist.
    Default,
    /// Appends the new value to the end of the variable, using an optional custom delimiter.
    Append,
    /// Prepends the new value to the beginning of the variable, using an optional custom delimiter.
    Prepend,
}

/// No two entries of `vars` have the same name.
pub open spec fn names_unique(vars: Seq<(String, String)>) -> bool {
    forall|i: int, j: int|
        0 <= i < vars.len() && 0 <= j < vars.len() && i != j ==> #[trigger] vars[i].0@
            != #[trigger] vars[j].0@
}

/// The map from names to values that `vars` holds, later entries winning.
pub open spec fn map_of(vars: Seq<(String, String)>) -> Map<Seq<char>, Seq<char>>
    decreases vars.len(),
{
    if vars.len() == 0 {
        Map::empty()
    } else {
        map_of(vars.drop_last()).insert(vars.last().0@, vars.last().1@)
    }
}

/// With unique names, `map_of` has exactly the names of `vars`, each with
/// the value of its entry.
pub proof fn lemma_map_of(vars: Seq<(String, String)>)
    requires
        names_unique(vars),
    ensures
        forall|k: Seq<char>|
            #[trigger] map_of(vars).contains_key(k) <==> exists|i: int|
                0 <= i < vars.len() && vars[i].0@ == k,
        forall|i: int|
            0 <= i < vars.len() ==> #[trigger] map_of(vars)[vars[i].0@] == vars[i].1@,
    decreases vars.len(),
{
    if vars.len() > 0 {
        let init = vars.drop_last();
        assert(names_unique(init)) by {
            assert forall|i: int, j: int|
                0 <= i < init.len() && 0 <= j < init.len() && i != j implies #[trigger] init[i].0@
                != #[trigger] init[j].0@ by {
                assert(init[i] == vars[i] && init[j] == vars[j]);
            }
        }
        lemma_map_of(init);
        let n = vars.len() - 1;
        assert forall|k: Seq<char>| #[trigger]
            map_of(vars).contains_key(k) <==> exists|i: int| 0 <= i < vars.len() && vars[i].0@ == k by {
            if map_of(vars).contains_key(k) && k != vars[n].0@ {
                assert(map_of(init).contains_key(k));
                let i = choose|i: int| 0 <= i < init.len() && init[i].0@ == k;
                assert(vars[i] == init[i]);
            }
            if exists|i: int| 0 <= i < vars.len() && vars[i].0@ == k {
                let i = choose|i: int| 0 <= i < vars.len() && vars[i].0@ == k;
                if i < n {
                    assert(init[i] == vars[i]);
                    assert(map_of(init).contains_key(k));
                }
            }
        }
        assert forall|i: int| 0 <= i < vars.len() implies #[trigger] map_of(vars)[vars[i].0@]
            == vars[i].1@ by {
            if i < n {
                assert(init[i] == vars[i]);
                assert(vars[i].0@ != vars[n].0@);
                assert(map_of(init)[init[i].0@] == init[i].1@);
            }
        }
    }
}

/// The index of the entry of `vars` named `name`, if there is one.
fn find_var(vars: &Vec<(String, String)>, name: &String) -> (res: Option<usize>)
    ensures
        match res {
            Some(i) => i < vars.len() && vars@[i as int].0@ == name@,
            None => forall|i: int| 0 <= i < vars.len() ==> #[trigger] vars@[i].0@ != name@,
        },
{
    let mut i: usize = 0;
    while i < vars.len()
        invariant
            i <= vars.len(),
            forall|j: int| 0 <= j < i ==> #[trigger] vars@[j].0@ != name@,
        decreases vars.len() - i,
    {
        if vars[i].0 == *name {
            return Some(i);
        }
        i = i + 1;
    }
    None
}

/// Sets `name` to `value` in `vars`, keeping the names unique.
fn insert_var(vars: &mut Vec<(String, String)>, name: String, value: String)
    requires
        names_unique(old(vars)@),
    ensures
        names_unique(final(vars)@),
        map_of(final(vars)@) == map_of(old(vars)@).insert(name@, value@),
{
    proof {
        lemma_map_of(vars@);
    }
    let ghost before = vars@;
    match find_var(vars, &name) {
        Some(i) => {
            let ghost k = name@;
            vars[i] = (name, value);
            proof {
                let after = vars@;
                assert(names_unique(after)) by {
                    assert forall|a: int, b: int|
                        0 <= a < after.len() && 0 <= b < after.len() && a != b implies #[trigger] after[a].0@
                        != #[trigger] after[b].0@ by {
                        if a != i && b != i {
                            assert(after[a] == before[a] && after[b] == before[b]);
                        } else if a == i {
                            assert(after[b] == before[b]);
                        } else {
                            assert(after[a] == before[a]);
                        }
                    }
                }
                lemma_map_of(after);
                assert forall|key: Seq<char>| #[trigger] map_of(after).contains_key(key)
                    <==> map_of(before).insert(k, value@).contains_key(key) by {
                    if exists|j: int| 0 <= j < after.len() && after[j].0@ == key {
                        let j = choose|j: int| 0 <= j < after.len() && after[j].0@ == key;
                        if j != i {
                            assert(after[j] == before[j]);
                        }
                    }
                    if exists|j: int| 0 <= j < before.len() && before[j].0@ == key {
                        let j = choose|j: int| 0 <= j < before.len() && before[j].0@ == key;
                        if j != i {
                            assert(after[j] == before[j]);
                        }
                    }
                }
                assert forall|key: Seq<char>| #[trigger] map_of(after).contains_key(key)
                    implies map_of(after)[key] == map_of(before).insert(k, value@)[key] by {
                    let j = choose|j: int| 0 <= j < after.len() && after[j].0@ == key;
                    if j != i {
                        assert(after[j] == before[j]);
                    }
                }
                assert(map_of(after) =~= map_of(before).insert(k, value@));
            }
        },
        None => {
            vars.push((name, value));
            proof {
                let after = vars@;
                assert(after.drop_last() =~= before);
                assert(names_unique(after)) by {
                    assert forall|a: int, b: int|
                        0 <= a < after.len() && 0 <= b < after.len() && a != b implies #[trigger] after[a].0@
                        != #[trigger] after[b].0@ by {
                        if a < before.len() {
                            assert(after[a] == before[a]);
                        }
                        if b < before.len() {
                            assert(after[b] == before[b]);
                        }
                    }
                }
            }
        },
    }
}

/// The host variables that never reach the launch process.
pub open spec fn launch_env_excluded(name: Seq<char>) -> bool {
    ||| name == "CNB_LAYERS_DIR"@
    ||| name == "CNB_APP_DIR"@
    ||| name == "CNB_PROCESS_TYPE"@
    ||| name == "CNB_PLATFORM_API"@
    ||| name == "CNB_DEPRECATION_MODE"@
}

/// The host variables that never reach the launch process, as written.
pub open spec fn launch_env_excludelist_spec() -> Seq<Seq<char>> {
    seq![
        "CNB_LAYERS_DIR"@,
        "CNB_APP_DIR"@,
        "CNB_PROCESS_TYPE"@,
        "CNB_PLATFORM_API"@,
        "CNB_DEPRECATION_MODE"@,
    ]
}

/// The host variables that never reach the launch process: a name is
/// excluded exactly when it is in this list.
pub fn launch_env_excludelist() -> (res: Vec<&'static str>)
    ensures
        res@.map_values(|s: &str| s@) == launch_env_excludelist_spec(),
        forall|name: Seq<char>|
            launch_env_excluded(name) <==> #[trigger] launch_env_excludelist_spec().contains(name),
{
    let mut v: Vec<&'static str> = Vec::new();
    v.push("CNB_LAYERS_DIR");
    v.push("CNB_APP_DIR");
    v.push("CNB_PROCESS_TYPE");
    v.push("CNB_PLATFORM_API");
    v.push("CNB_DEPRECATION_MODE");
    assert(v@.map_values(|s: &str| s@) =~= launch_env_excludelist_spec());
    let ghost list = launch_env_excludelist_spec();
    assert forall|name: Seq<char>|
        launch_env_excluded(name) <==> #[trigger] list.contains(name) by {
        if launch_env_excluded(name) {
            assert(name == list[0] || name == list[1] || name == list[2] || name == list[3]
                || name == list[4]);
        }
    }
    v
}

/// Whether the host variable `name` is kept out of the launch process.
fn is_excluded(name: &String) -> (res: bool)
    ensures
        res == launch_env_excluded(name@),
{
    *name == String::from_str("CNB_LAYERS_DIR") || *name == String::from_str("CNB_APP_DIR")
        || *name == String::from_str("CNB_PROCESS_TYPE") || *name == String::from_str(
        "CNB_PLATFORM_API",
    ) || *name == String::from_str("CNB_DEPRECATION_MODE")
}

/// The host variables of `environ` that the launch process keeps, later
/// entries winning.
pub open spec fn host_vars(environ: Seq<(String, String)>) -> Map<Seq<char>, Seq<char>>
    decreases environ.len(),
{
    if environ.len() == 0 {
        Map::empty()
    } else if launch_env_excluded(environ.last().0@) {
        host_vars(environ.drop_last())
    } else {
        host_vars(environ.drop_last()).insert(environ.last().0@, environ.last().1@)
    }
}

/// The variables of a new launch environment: the kept host variables, with
/// the entries `process_dir` and `lifecycle_dir` removed from `PATH`.
pub open spec fn launch_vars(
    environ: Seq<(String, String)>,
    process_dir: Seq<char>,
    lifecycle_dir: Seq<char>,
) -> Map<Seq<char>, Seq<char>> {
    let base = host_vars(environ);
    if base.contains_key("PATH"@) {
        base.insert("PATH"@, path_without(base["PATH"@], process_dir, lifecycle_dir))
    } else {
        base
    }
}

/// The variables that each root sub-directory of a layer extends.
pub open spec fn root_dirs_spec() -> Seq<(Seq<char>, Seq<Seq<char>>)> {
    seq![("bin"@, seq!["PATH"@]), ("lib"@, seq!["LD_LIBRARY_PATH"@])]
}

/// The view of a table from sub-directories to variables.
pub open spec fn root_table_view(table: Seq<(String, Vec<String>)>) -> Seq<
    (Seq<char>, Seq<Seq<char>>),
> {
    table.map_values(|e: (String, Vec<String>)| (e.0@, views(e.1@)))
}

/// The environment of the launch process, and the variables that the root
/// sub-directories of a layer extend.
pub struct LaunchEnv {
    vars: Vec<(String, String)>,
    root_dir_map: Vec<(String, Vec<String>)>,
}

impl View for LaunchEnv {
    type V = Map<Seq<char>, Seq<char>>;

    closed spec fn view(&self) -> Map<Seq<char>, Seq<char>> {
        map_of(self.vars@)
    }
}

impl LaunchEnv {
    /// Variable names are unique and the root table is the fixed one.
    #[verifier::type_invariant]
    spec fn wf(&self) -> bool {
        &&& names_unique(self.vars@)
        &&& root_table_view(self.root_dir_map@) == root_dirs_spec()
    }

    /// The fixed table from root sub-directories to the variables they extend.
    fn new_root_dir_map() -> (res: Vec<(String, Vec<String>)>)
        ensures
            root_table_view(res@) == root_dirs_spec(),
    {
        let mut bin_vars: Vec<String> = Vec::new();
        bin_vars.push(String::from_str("PATH"));
        let mut lib_vars: Vec<String> = Vec::new();
        lib_vars.push(String::from_str("LD_LIBRARY_PATH"));
        let mut table: Vec<(String, Vec<String>)> = Vec::new();
        table.push((String::from_str("bin"), bin_vars));
        table.push((String::from_str("lib"), lib_vars));
        assert(views(table@[0].1@) =~= seq!["PATH"@]);
        assert(views(table@[1].1@) =~= seq!["LD_LIBRARY_PATH"@]);
        assert(root_table_view(table@) =~= root_dirs_spec());
        table
    }

    /// Creates a launch environment from the host variables `environ`,
    /// without the variables of `LAUNCH_ENV_EXCLUDELIST` and with the
    /// entries `process_dir` and `lifecycle_dir` removed from `PATH`.
    pub fn new(environ: &[(String, String)], process_dir: &str, lifecycle_dir: &str) -> (res: Self)
        ensures
            res@ == launch_vars(environ@, process_dir@, lifecycle_dir@),
    {
        let mut vars: Vec<(String, String)> = Vec::new();
        let mut i: usize = 0;
        assert(environ@.take(0) =~= Seq::<(String, String)>::empty());
        assert(map_of(vars@) =~= Map::<Seq<char>, Seq<char>>::empty());
        while i < environ.len()
            invariant
                i <= environ@.len(),
                names_unique(vars@),
                map_of(vars@) == host_vars(environ@.take(i as int)),
            decreases environ.len() - i,
        {
            assert(environ@.take(i + 1).drop_last() =~= environ@.take(i as int));
            assert(environ@.take(i + 1).last() == environ@[i as int]);
            let (k, v) = &environ[i];
            if !is_excluded(k) {
                insert_var(&mut vars, k.clone(), v.clone());
            }
            i = i + 1;
        }
        assert(environ@.take(environ@.len() as int) =~= environ@);
        let path_name = String::from_str("PATH");
        proof {
            lemma_map_of(vars@);
        }
        match find_var(&vars, &path_name) {
            Some(idx) => {
                let stripped = path_without_entries(
                    vars[idx].1.as_str(),
                    process_dir,
                    lifecycle_dir,
                );
                insert_var(&mut vars, path_name, stripped);
            },
            None => {},
        }
        LaunchEnv { vars, root_dir_map: Self::new_root_dir_map() }
    }

    /// Sets the variable `k` to `v`.
    pub fn set(&mut self, k: &str, v: &str)
        ensures
            final(self)@ == old(self)@.insert(k@, v@),
    {
        proof {
            use_type_invariant(&*self);
        }
        let mut vars: Vec<(String, String)> = Vec::new();
        std::mem::swap(&mut vars, &mut self.vars);
        insert_var(&mut vars, String::from_str(k), String::from_str(v));
        self.vars = vars;
    }

    /// The value of the variable `k`, if it is set.
    pub fn get(&self, k: &str) -> (res: Option<&String>)
        ensures
            match res {
                Some(v) => self@.contains_key(k@) && v@ == self@[k@],
                None => !self@.contains_key(k@),
            },
    {
        proof {
            use_type_invariant(self);
        }
        proof {
            lemma_map_of(self.vars@);
        }
        let name = String::from_str(k);
        match find_var(&self.vars, &name) {
            Some(i) => Some(&self.vars[i].1),
            None => None,
        }
    }

    /// All variables of the launch environment, each name once.
    pub fn vars(&self) -> (res: &Vec<(String, String)>)
        ensures
            names_unique(res@),
            map_of(res@) == self@,
    {
        proof {
            use_type_invariant(self);
        }
        &self.vars
    }

    /// The table from root sub-directories of a layer to the variables that
    /// they extend.
    pub fn root_dir_map(&self) -> (res: &Vec<(String, Vec<String>)>)
        ensures
            root_table_view(res@) == root_dirs_spec(),
    {
        proof {
            use_type_invariant(self);
        }
        &self.root_dir_map
    }
}

/// The current value of `name` in `m`, empty when unset.
pub open spec fn current_value(m: Map<Seq<char>, Seq<char>>, name: Seq<char>) -> Seq<char> {
    if m.contains_key(name) {
        m[name]
    } else {
        Seq::empty()
    }
}

/// `m` after appending the directory `child` to the path list `var`: an
/// empty or unset list becomes `child`; otherwise a colon and `child` go at
/// its end, unless `child` itself holds a colon, which no path list can
/// carry, and then the list is left as it was.
pub open spec fn append_root_spec(
    m: Map<Seq<char>, Seq<char>>,
    var: Seq<char>,
    child: Seq<char>,
) -> Map<Seq<char>, Seq<char>> {
    let cur = current_value(m, var);
    if cur.len() == 0 {
        m.insert(var, child)
    } else if colon_free(child) {
        m.insert(var, cur + seq![':'] + child)
    } else {
        m
    }
}

/// `m` after appending `child` to each of the path lists `vars`, in order.
pub open spec fn append_root_all(
    m: Map<Seq<char>, Seq<char>>,
    vars: Seq<Seq<char>>,
    child: Seq<char>,
) -> Map<Seq<char>, Seq<char>>
    decreases vars.len(),
{
    if vars.len() == 0 {
        m
    } else {
        append_root_spec(append_root_all(m, vars.drop_last(), child), vars.last(), child)
    }
}

/// The variables that the root sub-directory `sub_dir` extends, by `table`.
pub open spec fn root_targets(table: Seq<(Seq<char>, Seq<Seq<char>>)>, sub_dir: Seq<char>) -> Seq<
    Seq<char>,
>
    decreases table.len(),
{
    if table.len() == 0 {
        Seq::empty()
    } else if table.last().0 == sub_dir {
        root_targets(table.drop_last(), sub_dir) + table.last().1
    } else {
        root_targets(table.drop_last(), sub_dir)
    }
}

/// Whether `s` holds a colon.
fn has_colon(s: &str) -> (res: bool)
    ensures
        res == !colon_free(s@),
{
    let c = chars_of(s);
    let mut i: usize = 0;
    while i < c.len()
        invariant
            c@ == s@,
            i <= c.len(),
            forall|j: int| 0 <= j < i ==> #[trigger] c@[j] != ':',
        decreases c.len() - i,
    {
        if c[i] == ':' {
            return true;
        }
        i = i + 1;
    }
    false
}

/// Appends the directory `child` to the path list `var` of `vars`.
fn append_root_var(vars: &mut Vec<(String, String)>, var: &String, child: &str)
    requires
        names_unique(old(vars)@),
    ensures
        names_unique(final(vars)@),
        map_of(final(vars)@) == append_root_spec(map_of(old(vars)@), var@, child@),
{
    proof {
        lemma_map_of(vars@);
    }
    let current: String = match find_var(vars, var) {
        Some(i) => vars[i].1.clone(),
        None => String::new(),
    };
    assert(current@ == current_value(map_of(vars@), var@));
    if current.as_str().is_empty() {
        insert_var(vars, var.clone(), String::from_str(child));
    } else if !has_colon(child) {
        let mut joined = current.clone();
        joined.append(":");
        joined.append(child);
        proof {
            reveal_strlit(":");
            assert(":"@ =~= seq![':']);
        }
        insert_var(vars, var.clone(), joined);
    }
}

impl LaunchEnv {
    /// Appends `child_dir`, the directory `sub_dir` of a layer, to each path
    /// list that `sub_dir` extends by the root table (`bin` extends
    /// `PATH`, `lib` extends `LD_LIBRARY_PATH`).
    pub fn add_root_child_dir(&mut self, sub_dir: &str, child_dir: &str)
        ensures
            final(self)@ == append_root_all(
                old(self)@,
                root_targets(root_dirs_spec(), sub_dir@),
                child_dir@,
            ),
            forall|other: Seq<char>|
                !root_targets(root_dirs_spec(), sub_dir@).contains(other) ==> (
                #[trigger] final(self)@.contains_key(other) == old(self)@.contains_key(other) && (
                old(self)@.contains_key(other) ==> final(self)@[other] == old(self)@[other])),
            colon_free(child_dir@) ==> forall|i: int|
                0 <= i < root_targets(root_dirs_spec(), sub_dir@).len() ==> {
                    let var = #[trigger] root_targets(root_dirs_spec(), sub_dir@)[i];
                    &&& final(self)@.contains_key(var)
                    &&& split_path_list(final(self)@[var]).contains(child_dir@)
                    &&& old(self)@.contains_key(var) && old(self)@[var].len() > 0 ==> forall|j: int|
                        0 <= j < split_path_list(old(self)@[var]).len() ==> split_path_list(
                            final(self)@[var],
                        ).contains(#[trigger] split_path_list(old(self)@[var])[j])
                },
    {
        proof {
            use_type_invariant(&*self);
        }
        let ghost table = root_table_view(self.root_dir_map@);
        let ghost start = self@;
        let mut vars: Vec<(String, String)> = Vec::new();
        std::mem::swap(&mut vars, &mut self.vars);
        let mut j: usize = 0;
        assert(table.take(0) =~= Seq::<(Seq<char>, Seq<Seq<char>>)>::empty());
        let sub = String::from_str(sub_dir);
        while j < self.root_dir_map.len()
            invariant
                j <= self.root_dir_map.len(),
                table == root_table_view(self.root_dir_map@),
                table == root_dirs_spec(),
                root_table_view(self.root_dir_map@) == root_dirs_spec(),
                names_unique(vars@),
                sub@ == sub_dir@,
                map_of(vars@) == append_root_all(
                    start,
                    root_targets(table.take(j as int), sub_dir@),
                    child_dir@,
                ),
            decreases self.root_dir_map.len() - j,
        {
            assert(table.take(j + 1).drop_last() =~= table.take(j as int));
            assert(table.take(j + 1).last() == table[j as int]);
            let ghost done = root_targets(table.take(j as int), sub_dir@);
            if self.root_dir_map[j].0 == sub {
                let ghost vars_view = views(self.root_dir_map@[j as int].1@);
                let mut k: usize = 0;
                assert(done + vars_view.take(0) =~= done);
                while k < self.root_dir_map[j].1.len()
                    invariant
                        j < self.root_dir_map.len(),
                        k <= self.root_dir_map@[j as int].1.len(),
                        vars_view == views(self.root_dir_map@[j as int].1@),
                        table == root_table_view(self.root_dir_map@),
                        names_unique(vars@),
                        map_of(vars@) == append_root_all(
                            start,
                            done + vars_view.take(k as int),
                            child_dir@,
                        ),
                    decreases self.root_dir_map@[j as int].1.len() - k,
                {
                    assert((done + vars_view.take(k + 1)).drop_last() =~= done + vars_view.take(
                        k as int,
                    ));
                    assert((done + vars_view.take(k + 1)).last() == self.root_dir_map@[j as int].1@[k as int]@);
                    append_root_var(&mut vars, &self.root_dir_map[j].1[k], child_dir);
                    k = k + 1;
                }
                assert(vars_view.take(k as int) =~= vars_view);
                assert(table[j as int].1 == vars_view);
            }
            j = j + 1;
        }
        assert(table.take(j as int) =~= table);
        self.vars = vars;
        proof {
            if colon_free(child_dir@) {
                lemma_root_dir_extends(start, sub_dir@, child_dir@);
            }
            assert forall|other: Seq<char>|
                !root_targets(root_dirs_spec(), sub_dir@).contains(other) implies (
            #[trigger] self@.contains_key(other) == start.contains_key(other) && (
            start.contains_key(other) ==> self@[other] == start[other])) by {
                lemma_append_root_all_others(
                    start,
                    root_targets(root_dirs_spec(), sub_dir@),
                    child_dir@,
                    other,
                );
            }
        }
    }
}

/// The delimiter that `Prepend` uses for `name` when none is given: the
/// path list separator for `PATH` and `LD_LIBRARY_PATH`, else nothing.
pub open spec fn default_prepend_delim(name: Seq<char>) -> Seq<char> {
    if name == "PATH"@ || name == "LD_LIBRARY_PATH"@ {
        seq![':']
    } else {
        Seq::empty()
    }
}

/// `m` after an environment file for `name`, with contents `value`, the
/// given `action` and the delimiter `delim` (`None` when no delimiter file
/// gives one), is applied.
pub open spec fn env_file_effect(
    m: Map<Seq<char>, Seq<char>>,
    name: Seq<char>,
    action: ActionType,
    value: Seq<char>,
    delim: Option<Seq<char>>,
) -> Map<Seq<char>, Seq<char>> {
    let cur = current_value(m, name);
    match action {
        ActionType::Override => m.insert(name, value),
        ActionType::Default => if m.contains_key(name) {
            m
        } else {
            m.insert(name, value)
        },
        ActionType::Append => {
            let d = match delim {
                Some(d) => d,
                None => Seq::empty(),
            };
            m.insert(
                name,
                if cur.len() == 0 {
                    value
                } else {
                    cur + d + value
                },
            )
        },
        ActionType::Prepend => {
            let d = match delim {
                Some(d) => d,
                None => default_prepend_delim(name),
            };
            m.insert(
                name,
                if cur.len() == 0 {
                    value
                } else {
                    value + d + cur
                },
            )
        },
    }
}

impl LaunchEnv {
    /// Applies an environment file: `value` is the file's contents,
    /// unmodified, `action` the action its suffix names, and `delim` the
    /// contents of the file `<name>.delim` beside it, if there is one.
    pub fn apply_env_file(
        &mut self,
        name: &str,
        action: ActionType,
        value: &str,
        delim: Option<&str>,
    )
        ensures
            final(self)@ == env_file_effect(
                old(self)@,
                name@,
                action,
                value@,
                match delim {
                    Some(d) => Some(d@),
                    None => None,
                },
            ),
    {
        proof {
            use_type_invariant(&*self);
            lemma_map_of(self.vars@);
            reveal_strlit(":");
            assert(":"@ =~= seq![':']);
        }
        let key = String::from_str(name);
        let mut vars: Vec<(String, String)> = Vec::new();
        std::mem::swap(&mut vars, &mut self.vars);
        let found = find_var(&vars, &key);
        let current: String = match found {
            Some(i) => vars[i].1.clone(),
            None => String::new(),
        };
        assert(current@ == current_value(map_of(vars@), name@));
        assert(found is Some <==> map_of(vars@).contains_key(name@));
        match action {
            ActionType::Override => {
                insert_var(&mut vars, key, String::from_str(value));
            },
            ActionType::Default => {
                if found.is_none() {
                    insert_var(&mut vars, key, String::from_str(value));
                }
            },
            ActionType::Append => {
                let new_value = if current.as_str().is_empty() {
                    String::from_str(value)
                } else {
                    let mut joined = current.clone();
                    match delim {
                        Some(d) => joined.append(d),
                        None => {},
                    }
                    joined.append(value);
                    joined
                };
                insert_var(&mut vars, key, new_value);
            },
            ActionType::Prepend => {
                let new_value = if current.as_str().is_empty() {
                    String::from_str(value)
                } else {
                    let mut joined = String::from_str(value);
                    match delim {
                        Some(d) => joined.append(d),
                        None => {
                            if key == String::from_str("PATH") || key == String::from_str(
                                "LD_LIBRARY_PATH",
                            ) {
                                joined.append(":");
                            }
                        },
                    }
                    joined.append(current.as_str());
                    joined
                };
                insert_var(&mut vars, key, new_value);
            },
        }
        self.vars = vars;
    }
}

/// The kept host variables are exactly the host variables that are not
/// excluded.
pub proof fn lemma_host_vars_names(environ: Seq<(String, String)>, k: Seq<char>)
    ensures
        host_vars(environ).contains_key(k) <==> !launch_env_excluded(k) && exists|i: int|
            0 <= i < environ.len() && environ[i].0@ == k,
    decreases environ.len(),
{
    if environ.len() > 0 {
        let init = environ.drop_last();
        lemma_host_vars_names(init, k);
        if exists|i: int| 0 <= i < init.len() && init[i].0@ == k {
            let i = choose|i: int| 0 <= i < init.len() && init[i].0@ == k;
            assert(environ[i] == init[i]);
        }
        if exists|i: int| 0 <= i < environ.len() && environ[i].0@ == k {
            let i = choose|i: int| 0 <= i < environ.len() && environ[i].0@ == k;
            if i < init.len() {
                assert(environ[i] == init[i]);
            }
        }
    }
}

/// A new launch environment holds none of the excluded host variables, and
/// every other host variable; with non-empty `process_dir` and
/// `lifecycle_dir`, no entry of its `PATH` is either of them.
pub proof fn lemma_launch_vars(
    environ: Seq<(String, String)>,
    process_dir: Seq<char>,
    lifecycle_dir: Seq<char>,
    k: Seq<char>,
)
    ensures
        launch_vars(environ, process_dir, lifecycle_dir).contains_key(k) <==> !launch_env_excluded(
            k,
        ) && exists|i: int| 0 <= i < environ.len() && environ[i].0@ == k,
        process_dir.len() > 0 && lifecycle_dir.len() > 0 && launch_vars(
            environ,
            process_dir,
            lifecycle_dir,
        ).contains_key("PATH"@) ==> forall|i: int|
            0 <= i < split_path_list(launch_vars(environ, process_dir, lifecycle_dir)["PATH"@]).len()
                ==> {
                &&& #[trigger] split_path_list(
                    launch_vars(environ, process_dir, lifecycle_dir)["PATH"@],
                )[i] != process_dir
                &&& split_path_list(launch_vars(environ, process_dir, lifecycle_dir)["PATH"@])[i]
                    != lifecycle_dir
            },
{
    lemma_host_vars_names(environ, k);
    let base = host_vars(environ);
    if base.contains_key("PATH"@) && process_dir.len() > 0 && lifecycle_dir.len() > 0 {
        lemma_path_without_excludes(base["PATH"@], process_dir, lifecycle_dir);
    }
}

/// Entries whose names are all kept give their own map as host variables.
pub proof fn lemma_host_vars_all_kept(vars: Seq<(String, String)>)
    requires
        forall|i: int| 0 <= i < vars.len() ==> !launch_env_excluded(#[trigger] vars[i].0@),
    ensures
        host_vars(vars) == map_of(vars),
    decreases vars.len(),
{
    if vars.len() > 0 {
        let init = vars.drop_last();
        assert forall|i: int| 0 <= i < init.len() implies !launch_env_excluded(
            #[trigger] init[i].0@,
        ) by {
            assert(init[i] == vars[i]);
        }
        lemma_host_vars_all_kept(init);
        assert(!launch_env_excluded(vars[vars.len() - 1].0@));
    }
}

/// An excluded host variable, wherever it stands in `environ`, has no effect
/// on the launch environment.
pub proof fn lemma_launch_vars_ignore_excluded(
    environ: Seq<(String, String)>,
    i: int,
    entry: (String, String),
    process_dir: Seq<char>,
    lifecycle_dir: Seq<char>,
)
    requires
        0 <= i <= environ.len(),
        launch_env_excluded(entry.0@),
    ensures
        launch_vars(environ.insert(i, entry), process_dir, lifecycle_dir) == launch_vars(
            environ,
            process_dir,
            lifecycle_dir,
        ),
{
    lemma_host_vars_ignore_excluded(environ, i, entry);
}

/// An excluded host variable, wherever it stands, adds nothing to the kept
/// host variables.
proof fn lemma_host_vars_ignore_excluded(environ: Seq<(String, String)>, i: int, entry: (String, String))
    requires
        0 <= i <= environ.len(),
        launch_env_excluded(entry.0@),
    ensures
        host_vars(environ.insert(i, entry)) == host_vars(environ),
    decreases environ.len(),
{
    let longer = environ.insert(i, entry);
    if i == environ.len() {
        assert(longer.drop_last() =~= environ);
        assert(longer.last() == entry);
    } else {
        let init = environ.drop_last();
        lemma_host_vars_ignore_excluded(init, i, entry);
        assert(longer.drop_last() =~= init.insert(i, entry));
        assert(longer.last() == environ.last());
    }
}

/// Making a launch environment from the variables of a launch environment,
/// listed in any order, gives the same variables: excluding the host
/// variables and removing `process_dir` and `lifecycle_dir` from `PATH` a
/// second time changes nothing.
pub proof fn lemma_launch_vars_idempotent(
    environ: Seq<(String, String)>,
    again: Seq<(String, String)>,
    process_dir: Seq<char>,
    lifecycle_dir: Seq<char>,
)
    requires
        names_unique(again),
        map_of(again) == launch_vars(environ, process_dir, lifecycle_dir),
    ensures
        launch_vars(again, process_dir, lifecycle_dir) == launch_vars(
            environ,
            process_dir,
            lifecycle_dir,
        ),
{
    let m = launch_vars(environ, process_dir, lifecycle_dir);
    lemma_map_of(again);
    assert forall|i: int| 0 <= i < again.len() implies !launch_env_excluded(
        #[trigger] again[i].0@,
    ) by {
        assert(map_of(again).contains_key(again[i].0@));
        lemma_launch_vars(environ, process_dir, lifecycle_dir, again[i].0@);
    }
    lemma_host_vars_all_kept(again);
    let base = host_vars(environ);
    if m.contains_key("PATH"@) {
        lemma_launch_vars(environ, process_dir, lifecycle_dir, "PATH"@);
        lemma_host_vars_names(environ, "PATH"@);
        assert(base.contains_key("PATH"@));
        lemma_path_without_idempotent(base["PATH"@], process_dir, lifecycle_dir);
        assert(m.insert("PATH"@, path_without(m["PATH"@], process_dir, lifecycle_dir)) =~= m);
    }
}

/// Each root sub-directory of a layer extends its own path list: `bin`
/// extends `PATH`, `lib` extends `LD_LIBRARY_PATH`, and any other extends
/// nothing.
pub proof fn lemma_root_targets(sub_dir: Seq<char>)
    ensures
        sub_dir == "bin"@ ==> root_targets(root_dirs_spec(), sub_dir) == seq!["PATH"@],
        sub_dir == "lib"@ ==> root_targets(root_dirs_spec(), sub_dir) == seq!["LD_LIBRARY_PATH"@],
        sub_dir != "bin"@ && sub_dir != "lib"@ ==> root_targets(root_dirs_spec(), sub_dir)
            == Seq::<Seq<char>>::empty(),
{
    let table = root_dirs_spec();
    assert(table.drop_last() =~= seq![("bin"@, seq!["PATH"@])]);
    assert(table.drop_last().drop_last() =~= Seq::<(Seq<char>, Seq<Seq<char>>)>::empty());
    reveal_strlit("bin");
    reveal_strlit("lib");
    assert("bin"@ != "lib"@) by {
        assert("bin"@[0] != "lib"@[0]);
    }
    reveal_with_fuel(root_targets, 3);
    assert(table.last() == ("lib"@, seq!["LD_LIBRARY_PATH"@]));
    assert(table.drop_last().last() == ("bin"@, seq!["PATH"@]));
    assert(Seq::<Seq<char>>::empty() + seq!["PATH"@] =~= seq!["PATH"@]);
    assert(Seq::<Seq<char>>::empty() + seq!["LD_LIBRARY_PATH"@] =~= seq!["LD_LIBRARY_PATH"@]);
}

/// Appending a colon-free directory to a path list gives a list that has the
/// directory as an entry and, when the list was non-empty, every entry it
/// had before.
pub proof fn lemma_append_root_spec_extends(
    m: Map<Seq<char>, Seq<char>>,
    var: Seq<char>,
    child: Seq<char>,
)
    requires
        colon_free(child),
    ensures
        append_root_spec(m, var, child).contains_key(var),
        split_path_list(append_root_spec(m, var, child)[var]).contains(child),
        m.contains_key(var) && m[var].len() > 0 ==> forall|j: int|
            0 <= j < split_path_list(m[var]).len() ==> split_path_list(
                append_root_spec(m, var, child)[var],
            ).contains(#[trigger] split_path_list(m[var])[j]),
{
    let r = append_root_spec(m, var, child);
    let cur = current_value(m, var);
    if cur.len() == 0 {
        lemma_split_single(child);
        assert(split_path_list(r[var])[0] == child);
    } else {
        lemma_split_append(cur, child);
        let before = split_path_list(cur);
        let after = split_path_list(r[var]);
        assert(after == before.push(child));
        assert(after[before.len() as int] == child);
        assert forall|j: int| 0 <= j < before.len() implies after.contains(#[trigger] before[j]) by {
            assert(after[j] == before[j]);
        }
    }
}

/// Appending to the path lists `vars` leaves every other variable as it was.
pub proof fn lemma_append_root_all_others(
    m: Map<Seq<char>, Seq<char>>,
    vars: Seq<Seq<char>>,
    child: Seq<char>,
    other: Seq<char>,
)
    requires
        !vars.contains(other),
    ensures
        append_root_all(m, vars, child).contains_key(other) == m.contains_key(other),
        m.contains_key(other) ==> append_root_all(m, vars, child)[other] == m[other],
    decreases vars.len(),
{
    if vars.len() > 0 {
        let init = vars.drop_last();
        assert(!init.contains(other)) by {
            if init.contains(other) {
                let j = choose|j: int| 0 <= j < init.len() && init[j] == other;
                assert(vars[j] == other);
            }
        }
        assert(vars[vars.len() - 1] != other);
        lemma_append_root_all_others(m, init, child, other);
    }
}

/// Adding a colon-free directory of a layer extends each path list that its
/// sub-directory targets: the list then has the directory as an entry and,
/// when it was non-empty, still has every entry it had before.
pub proof fn lemma_root_dir_extends(m: Map<Seq<char>, Seq<char>>, sub_dir: Seq<char>, child: Seq<char>)
    requires
        colon_free(child),
    ensures
        forall|i: int|
            0 <= i < root_targets(root_dirs_spec(), sub_dir).len() ==> {
                let var = #[trigger] root_targets(root_dirs_spec(), sub_dir)[i];
                let after = append_root_all(m, root_targets(root_dirs_spec(), sub_dir), child);
                &&& after.contains_key(var)
                &&& split_path_list(after[var]).contains(child)
                &&& m.contains_key(var) && m[var].len() > 0 ==> forall|j: int|
                    0 <= j < split_path_list(m[var]).len() ==> split_path_list(after[var]).contains(
                        #[trigger] split_path_list(m[var])[j],
                    )
            },
{
    lemma_root_targets(sub_dir);
    let targets = root_targets(root_dirs_spec(), sub_dir);
    if targets.len() == 1 {
        let var = targets[0];
        assert(targets.drop_last() =~= Seq::<Seq<char>>::empty());
        assert(targets.last() == var);
        assert(append_root_all(m, targets.drop_last(), child) == m);
        assert(append_root_all(m, targets, child) == append_root_spec(m, var, child));
        lemma_append_root_spec_extends(m, var, child);
    }
}

/// What each action does to a variable: `Override` sets the file's value;
/// `Default` sets it only when the variable does not exist yet and otherwise
/// changes nothing, even when its value is empty; `Append` and `Prepend` set it alone on an unset or empty
/// variable and otherwise put it after, resp. before, the current value with
/// the delimiter between. No other variable changes.
pub proof fn lemma_env_file_actions(
    m: Map<Seq<char>, Seq<char>>,
    name: Seq<char>,
    value: Seq<char>,
    delim: Option<Seq<char>>,
    other: Seq<char>,
)
    ensures
        env_file_effect(m, name, ActionType::Override, value, delim)[name] == value,
        !m.contains_key(name) ==> env_file_effect(
            m,
            name,
            ActionType::Default,
            value,
            delim,
        )[name] == value,
        m.contains_key(name) ==> env_file_effect(
            m,
            name,
            ActionType::Default,
            value,
            delim,
        ) == m,
        current_value(m, name).len() == 0 ==> env_file_effect(
            m,
            name,
            ActionType::Append,
            value,
            delim,
        )[name] == value && env_file_effect(m, name, ActionType::Prepend, value, delim)[name]
            == value,
        current_value(m, name).len() > 0 && delim is Some ==> env_file_effect(
            m,
            name,
            ActionType::Append,
            value,
            delim,
        )[name] == m[name] + delim->0 + value && env_file_effect(
            m,
            name,
            ActionType::Prepend,
            value,
            delim,
        )[name] == value + delim->0 + m[name],
        forall|a: ActionType|
            other != name ==> (#[trigger] env_file_effect(m, name, a, value, delim).contains_key(
                other,
            ) <==> m.contains_key(other)) && (m.contains_key(other) ==> env_file_effect(
                m,
                name,
                a,
                value,
                delim,
            )[other] == m[other]),
{
}

} // verus!
