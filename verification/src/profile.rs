//! Subagent profiles: the `[[agents]]` entries of the global and workspace
//! `agents.toml` files, merged into one catalog keyed by name.
use vstd::prelude::*;

use crate::file::{join_path, join_spec};
use crate::text::{copy_str, push_str, str_equal};

verus! {

broadcast use vstd::string::group_string_axioms;

/// One `[[agents]]` entry: the recipe for spawning a named subagent.
#[derive(Debug, Clone)]
pub struct SubagentProfile {
    pub name: String,
    pub system_prompt: Option<String>,
    pub working_directory: Option<String>,
    pub allow_nested: bool,
    pub middlewares: Vec<String>,
}

/// The entries of one `agents.toml` file that was found and read, with the
/// path it was read from.
#[derive(Debug, Clone)]
pub struct ProfileFile {
    pub path: String,
    pub agents: Vec<SubagentProfile>,
}

/// Profiles keyed by name, merged from the global and workspace files.
#[derive(Debug)]
pub struct ProfileCatalog {
    pub profiles: Vec<SubagentProfile>,
}

/// Why a catalog cannot be built or a profile not found.
#[derive(Debug, Clone, PartialEq, Eq)]
pub enum ProfileError {
    /// A profile in the file at `path` has an empty name.
    EmptyName { path: String },
    /// Two profiles in the file at `path` share `name`.
    DuplicateName { name: String, path: String },
    /// No profile is called `name`.
    NotFound { name: String },
}

/// The mathematical content of a [`ProfileError`].
pub enum ProfileFault {
    EmptyName(Seq<char>),
    DuplicateName(Seq<char>, Seq<char>),
    NotFound(Seq<char>),
}

impl View for ProfileError {
    type V = ProfileFault;

    open spec fn view(&self) -> ProfileFault {
        match self {
            ProfileError::EmptyName { path } => ProfileFault::EmptyName(path@),
            ProfileError::DuplicateName { name, path } => ProfileFault::DuplicateName(name@, path@),
            ProfileError::NotFound { name } => ProfileFault::NotFound(name@),
        }
    }
}

/// The first entry of a file, in order, whose name is empty or repeats an
/// earlier name.
pub open spec fn file_problem(ps: Seq<SubagentProfile>, path: Seq<char>) -> Option<ProfileFault>
    decreases ps.len(),
{
    if ps.len() == 0 {
        None
    } else {
        let init = ps.drop_last();
        match file_problem(init, path) {
            Some(f) => Some(f),
            None => if ps.last().name@.len() == 0 {
                Some(ProfileFault::EmptyName(path))
            } else if exists|j: int| 0 <= j < init.len() && #[trigger] init[j].name@ == ps.last().name@ {
                Some(ProfileFault::DuplicateName(ps.last().name@, path))
            } else {
                None
            },
        }
    }
}

/// Every name is non-empty and no two entries share a name.
pub open spec fn names_valid(ps: Seq<SubagentProfile>) -> bool {
    &&& forall|i: int| 0 <= i < ps.len() ==> (#[trigger] ps[i]).name@.len() > 0
    &&& forall|i: int, j: int|
        0 <= i < j < ps.len() ==> (#[trigger] ps[i]).name@ != (#[trigger] ps[j]).name@
}

/// Whether some entry is called `name`.
pub open spec fn has_name(ps: Seq<SubagentProfile>, name: Seq<char>) -> bool {
    exists|i: int| 0 <= i < ps.len() && (#[trigger] ps[i]).name@ == name
}

proof fn lemma_file_problem_none(ps: Seq<SubagentProfile>, path: Seq<char>)
    ensures
        file_problem(ps, path) is None <==> names_valid(ps),
    decreases ps.len(),
{
    if ps.len() > 0 {
        let init = ps.drop_last();
        lemma_file_problem_none(init, path);
        if names_valid(ps) {
            assert(names_valid(init)) by {
                assert forall|i: int| 0 <= i < init.len() implies (#[trigger] init[i]).name@.len()
                    > 0 by {
                    assert(init[i] == ps[i]);
                }
                assert forall|i: int, j: int| 0 <= i < j < init.len() implies (
                #[trigger] init[i]).name@ != (#[trigger] init[j]).name@ by {
                    assert(init[i] == ps[i]);
                    assert(init[j] == ps[j]);
                }
            }
            assert(ps.last() == ps[ps.len() - 1]);
            assert(!exists|j: int| 0 <= j < init.len() && #[trigger] init[j].name@ == ps.last().name@)
                by {
                assert forall|j: int| 0 <= j < init.len() implies #[trigger] init[j].name@
                    != ps.last().name@ by {
                    assert(init[j] == ps[j]);
                }
            }
        }
        if file_problem(ps, path) is None {
            assert(names_valid(init));
            assert forall|i: int| 0 <= i < ps.len() implies (#[trigger] ps[i]).name@.len() > 0 by {
                if i < init.len() {
                    assert(init[i] == ps[i]);
                }
            }
            assert forall|i: int, j: int| 0 <= i < j < ps.len() implies (#[trigger] ps[i]).name@
                != (#[trigger] ps[j]).name@ by {
                assert(init[i] == ps[i]);
                if j < init.len() {
                    assert(init[j] == ps[j]);
                } else {
                    assert(ps[j] == ps.last());
                }
            }
        }
    }
}

proof fn lemma_file_problem_prefix(ps: Seq<SubagentProfile>, path: Seq<char>, k: int)
    requires
        0 <= k <= ps.len(),
        file_problem(ps.take(k), path) is Some,
    ensures
        file_problem(ps, path) == file_problem(ps.take(k), path),
    decreases ps.len(),
{
    if k < ps.len() {
        assert(ps.drop_last().take(k) =~= ps.take(k));
        lemma_file_problem_prefix(ps.drop_last(), path, k);
    } else {
        assert(ps.take(k) =~= ps);
    }
}

/// Checks the entries of one file: names must be non-empty and distinct.
fn check_file(file: &ProfileFile) -> (r: Result<(), ProfileError>)
    ensures
        r is Ok <==> file_problem(file.agents@, file.path@) is None,
        r is Err ==> file_problem(file.agents@, file.path@) == Some(r->Err_0@),
{
        let n = file.agents.len();
    let mut k: usize = 0;
    while k < n
        invariant
            n == file.agents@.len(),
            k <= n,
            file_problem(file.agents@.take(k as int), file.path@) is None,
        decreases n - k,
    {
        let ghost pre = file.agents@.take(k as int);
        assert(file.agents@.take(k + 1).drop_last() =~= pre);
        assert(file.agents@.take(k + 1).last() == file.agents@[k as int]);
        if file.agents[k].name.as_str().is_empty() {
            proof {
                lemma_file_problem_prefix(file.agents@, file.path@, k + 1);
            }
            let e = ProfileError::EmptyName { path: file.path.clone() };
            assert(file_problem(file.agents@.take(k + 1), file.path@) == Some(ProfileFault::EmptyName(file.path@)));
            return Err(e);
        }
        let mut j: usize = 0;
        while j < k
            invariant
                n == file.agents@.len(),
                j <= k < n,
                pre == file.agents@.take(k as int),
                file_problem(pre, file.path@) is None,
                file.agents@[k as int].name@.len() > 0,
                forall|t: int| 0 <= t < j ==> (#[trigger] pre[t]).name@ != file.agents@[k as int].name@,
            decreases k - j,
        {
            if str_equal(file.agents[j].name.as_str(), file.agents[k].name.as_str()) {
                assert(pre[j as int] == file.agents@[j as int]);
                assert(file.agents@.take(k + 1).drop_last() =~= pre);
                assert(file.agents@.take(k + 1).last() == file.agents@[k as int]);
                proof {
                    lemma_file_problem_prefix(file.agents@, file.path@, k + 1);
                }
                return Err(
                    ProfileError::DuplicateName { name: file.agents[k].name.clone(), path: file.path.clone() },
                );
            }
            assert(pre[j as int] == file.agents@[j as int]);
            j += 1;
        }
        k += 1;
    }
    assert(file.agents@.take(n as int) =~= file.agents@);
    Ok(())
}


/// The profile that a lookup of `name` finds among `ps`: the last entry so
/// called, since a later entry replaces an earlier one of the same name.
pub open spec fn find_profile(ps: Seq<SubagentProfile>, name: Seq<char>) -> Option<SubagentProfile>
    decreases ps.len(),
{
    if ps.len() == 0 {
        None
    } else if ps.last().name@ == name {
        Some(ps.last())
    } else {
        find_profile(ps.drop_last(), name)
    }
}

/// The catalog that a sequence of entries makes: each name maps to the last
/// entry of that name.
pub open spec fn profile_map(ps: Seq<SubagentProfile>) -> Map<Seq<char>, SubagentProfile> {
    Map::new(|n: Seq<char>| find_profile(ps, n) is Some, |n: Seq<char>| find_profile(ps, n)->0)
}

/// The entries of an optional file, none where the file is absent.
pub open spec fn file_entries(f: Option<ProfileFile>) -> Seq<SubagentProfile> {
    match f {
        Some(file) => file.agents@,
        None => Seq::empty(),
    }
}

/// The first problem of an optional file.
pub open spec fn opt_file_problem(f: Option<ProfileFile>) -> Option<ProfileFault> {
    match f {
        Some(file) => file_problem(file.agents@, file.path@),
        None => None,
    }
}

/// What refuses a load: the global file is checked before the workspace file.
pub open spec fn load_problem(global: Option<ProfileFile>, workspace: Option<ProfileFile>) -> Option<
    ProfileFault,
> {
    match opt_file_problem(global) {
        Some(f) => Some(f),
        None => opt_file_problem(workspace),
    }
}

/// The entries of `g` whose names no entry of `w` has, in order.
pub open spec fn kept(g: Seq<SubagentProfile>, w: Seq<SubagentProfile>) -> Seq<SubagentProfile>
    decreases g.len(),
{
    if g.len() == 0 {
        Seq::empty()
    } else if has_name(w, g.last().name@) {
        kept(g.drop_last(), w)
    } else {
        kept(g.drop_last(), w).push(g.last())
    }
}

impl View for ProfileCatalog {
    type V = Map<Seq<char>, SubagentProfile>;

    open spec fn view(&self) -> Map<Seq<char>, SubagentProfile> {
        profile_map(self.profiles@)
    }
}

proof fn lemma_find_some(ps: Seq<SubagentProfile>, name: Seq<char>)
    ensures
        find_profile(ps, name) is Some <==> has_name(ps, name),
        find_profile(ps, name) is Some ==> find_profile(ps, name)->0.name@ == name,
    decreases ps.len(),
{
    if ps.len() > 0 {
        let init = ps.drop_last();
        lemma_find_some(init, name);
        if has_name(init, name) {
            let j = choose|j: int| 0 <= j < init.len() && (#[trigger] init[j]).name@ == name;
            assert(ps[j] == init[j]);
        }
        if has_name(ps, name) && ps.last().name@ != name {
            let j = choose|j: int| 0 <= j < ps.len() && (#[trigger] ps[j]).name@ == name;
            assert(j < init.len());
            assert(init[j] == ps[j]);
        }
        assert(ps[ps.len() - 1] == ps.last());
    }
}

proof fn lemma_find_append(a: Seq<SubagentProfile>, b: Seq<SubagentProfile>, name: Seq<char>)
    ensures
        find_profile(a + b, name) == (if find_profile(b, name) is Some {
            find_profile(b, name)
        } else {
            find_profile(a, name)
        }),
    decreases b.len(),
{
    if b.len() == 0 {
        assert(a + b =~= a);
    } else {
        assert((a + b).drop_last() =~= a + b.drop_last());
        assert((a + b).last() == b.last());
        lemma_find_append(a, b.drop_last(), name);
    }
}

proof fn lemma_kept(g: Seq<SubagentProfile>, w: Seq<SubagentProfile>, name: Seq<char>)
    ensures
        find_profile(kept(g, w), name) == (if has_name(w, name) {
            None
        } else {
            find_profile(g, name)
        }),
    decreases g.len(),
{
    if g.len() > 0 {
        lemma_kept(g.drop_last(), w, name);
        let k = kept(g.drop_last(), w);
        if !has_name(w, g.last().name@) {
            assert(k.push(g.last()).drop_last() =~= k);
        }
    }
}

proof fn lemma_kept_names(g: Seq<SubagentProfile>, w: Seq<SubagentProfile>)
    requires
        names_valid(g),
    ensures
        names_valid(kept(g, w)),
        forall|i: int|
            0 <= i < kept(g, w).len() ==> !has_name(w, (#[trigger] kept(g, w)[i]).name@)
                && has_name(g, kept(g, w)[i].name@),
    decreases g.len(),
{
    if g.len() > 0 {
        let init = g.drop_last();
        assert(names_valid(init)) by {
            assert forall|i: int| 0 <= i < init.len() implies (#[trigger] init[i]).name@.len()
                > 0 by {
                assert(init[i] == g[i]);
            }
            assert forall|i: int, j: int| 0 <= i < j < init.len() implies (
            #[trigger] init[i]).name@ != (#[trigger] init[j]).name@ by {
                assert(init[i] == g[i]);
                assert(init[j] == g[j]);
            }
        }
        lemma_kept_names(init, w);
        let k = kept(init, w);
        assert forall|i: int| 0 <= i < k.len() implies has_name(g, (#[trigger] k[i]).name@) by {
            let j = choose|j: int| 0 <= j < init.len() && (#[trigger] init[j]).name@ == k[i].name@;
            assert(g[j] == init[j]);
        }
        if !has_name(w, g.last().name@) {
            let k2 = k.push(g.last());
            assert(g[g.len() - 1] == g.last());
            assert forall|i: int| 0 <= i < k.len() implies (#[trigger] k[i]).name@ != g.last().name@ by {
                let j = choose|j: int| 0 <= j < init.len() && (#[trigger] init[j]).name@ == k[i].name@;
                assert(g[j] == init[j]);
                assert(g[g.len() - 1] == g.last());
            }
            assert forall|i: int| 0 <= i < k2.len() implies !has_name(w, (#[trigger] k2[i]).name@)
                && has_name(g, k2[i].name@) by {
                if i < k.len() {
                    assert(k2[i] == k[i]);
                }
            }
            assert forall|i: int, j: int| 0 <= i < j < k2.len() implies (#[trigger] k2[i]).name@
                != (#[trigger] k2[j]).name@ by {
                assert(k2[i] == k[i]);
                if j < k.len() {
                    assert(k2[j] == k[j]);
                }
            }
            assert forall|i: int| 0 <= i < k2.len() implies (#[trigger] k2[i]).name@.len() > 0 by {
                if i < k.len() {
                    assert(k2[i] == k[i]);
                }
            }
        }
    }
}

proof fn lemma_concat_names(a: Seq<SubagentProfile>, b: Seq<SubagentProfile>)
    requires
        names_valid(a),
        names_valid(b),
        forall|i: int| 0 <= i < a.len() ==> !has_name(b, (#[trigger] a[i]).name@),
    ensures
        names_valid(a + b),
{
    let c = a + b;
    assert forall|i: int| 0 <= i < c.len() implies (#[trigger] c[i]).name@.len() > 0 by {
        if i < a.len() {
            assert(c[i] == a[i]);
        } else {
            assert(c[i] == b[i - a.len()]);
        }
    }
    assert forall|i: int, j: int| 0 <= i < j < c.len() implies (#[trigger] c[i]).name@
        != (#[trigger] c[j]).name@ by {
        if j < a.len() {
            assert(c[i] == a[i]);
            assert(c[j] == a[j]);
        } else if i >= a.len() {
            assert(c[i] == b[i - a.len()]);
            assert(c[j] == b[j - a.len()]);
        } else {
            assert(c[i] == a[i]);
            assert(c[j] == b[j - a.len()]);
            if c[i].name@ == c[j].name@ {
                assert(has_name(b, a[i].name@));
            }
        }
    }
}

/// Whether some entry of `ps` is called `name`.
fn contains_name(ps: &Vec<SubagentProfile>, name: &str) -> (r: bool)
    ensures
        r == has_name(ps@, name@),
{
    let mut i: usize = 0;
    while i < ps.len()
        invariant
            i <= ps@.len(),
            forall|j: int| 0 <= j < i ==> (#[trigger] ps@[j]).name@ != name@,
        decreases ps.len() - i,
    {
        if str_equal(ps[i].name.as_str(), name) {
            return true;
        }
        i += 1;
    }
    false
}

/// Checks an optional file.
fn check_opt_file(f: &Option<ProfileFile>) -> (r: Result<(), ProfileError>)
    ensures
        match r {
            Ok(()) => opt_file_problem(*f) is None,
            Err(e) => opt_file_problem(*f) == Some(e@),
        },
{
    match f {
        Some(file) => check_file(file),
        None => Ok(()),
    }
}

impl ProfileCatalog {
    /// A catalog with no profiles: the fallback when the profile files
    /// cannot be loaded.
    pub fn empty() -> (r: Self)
        ensures
            r.profiles@.len() == 0,
            r@ == Map::<Seq<char>, SubagentProfile>::empty(),
    {
        let r = ProfileCatalog { profiles: Vec::new() };
        assert(r@ =~= Map::<Seq<char>, SubagentProfile>::empty());
        r
    }

    /// Merges the global file, then the workspace file, by name: a workspace
    /// entry wholly replaces a global entry of the same name. A file that was
    /// not found is `None` and contributes nothing. Within one file an empty
    /// name or a repeated name is refused; the global file is checked first.
    pub fn load(global: Option<ProfileFile>, workspace: Option<ProfileFile>) -> (r: Result<
        Self,
        ProfileError,
    >)
        ensures
            match r {
                Ok(cat) => {
                    &&& load_problem(global, workspace) is None
                    &&& names_valid(cat.profiles@)
                    &&& cat@ == profile_map(file_entries(global) + file_entries(workspace))
                },
                Err(e) => load_problem(global, workspace) == Some(e@),
            },
    {
        match check_opt_file(&global) {
            Err(e) => return Err(e),
            Ok(()) => {},
        }
        match check_opt_file(&workspace) {
            Err(e) => return Err(e),
            Ok(()) => {},
        }
        let ghost g = file_entries(global);
        let ghost w = file_entries(workspace);
        let ghost gf = global;
        let ghost wf = workspace;
        proof {
            match gf {
                Some(file) => lemma_file_problem_none(file.agents@, file.path@),
                None => {},
            }
            match wf {
                Some(file) => lemma_file_problem_none(file.agents@, file.path@),
                None => {},
            }
        }
        let mut ws: Vec<SubagentProfile> = match workspace {
            Some(file) => file.agents,
            None => Vec::new(),
        };
        let gs: Vec<SubagentProfile> = match global {
            Some(file) => file.agents,
            None => Vec::new(),
        };
        assert(ws@ == w);
        assert(gs@ == g);
        let mut profiles: Vec<SubagentProfile> = Vec::new();
        for p in it: gs
            invariant
                ws@ == w,
                it.seq() == g,
                profiles@ == kept(g.take(it.index() as int), w),
        {
            proof {
                let i = it.index() as int;
                assert(g.take(i + 1).drop_last() =~= g.take(i));
                assert(g.take(i + 1).last() == g[i]);
            }
            if !contains_name(&ws, p.name.as_str()) {
                profiles.push(p);
            }
        }
        assert(g.take(g.len() as int) =~= g);
        proof {
            lemma_kept_names(g, w);
            lemma_concat_names(kept(g, w), w);
        }
        profiles.append(&mut ws);
        let cat = ProfileCatalog { profiles };
        proof {
            assert(cat.profiles@ =~= kept(g, w) + w);
            assert forall|n: Seq<char>| #![auto]
                find_profile(cat.profiles@, n) == find_profile(g + w, n) by {
                lemma_find_append(kept(g, w), w, n);
                lemma_find_append(g, w, n);
                lemma_kept(g, w, n);
                lemma_find_some(w, n);
            }
            assert(cat@ =~= profile_map(g + w));
        }
        Ok(cat)
    }

    /// The profile called `name`.
    pub fn get(&self, name: &str) -> (r: Result<&SubagentProfile, ProfileError>)
        ensures
            match r {
                Ok(p) => self@.contains_key(name@) && *p == self@[name@],
                Err(e) => !self@.contains_key(name@) && e@ == ProfileFault::NotFound(name@),
            },
    {
                let mut i: usize = self.profiles.len();
        assert(self.profiles@.take(self.profiles@.len() as int) =~= self.profiles@);
        while i > 0
            invariant
                i <= self.profiles@.len(),
                find_profile(self.profiles@, name@) == find_profile(self.profiles@.take(i as int), name@),
            decreases i,
        {
            let ghost pre = self.profiles@.take(i as int);
            assert(pre.last() == self.profiles@[i - 1]);
            assert(pre.drop_last() =~= self.profiles@.take(i - 1));
            if str_equal(self.profiles[i - 1].name.as_str(), name) {
                proof {
                    lemma_find_some(self.profiles@, name@);
                }
                return Ok(&self.profiles[i - 1]);
            }
            i -= 1;
        }
        Err(ProfileError::NotFound { name: copy_str(name) })
    }
}

/// A lookup that fails names no profile.
pub proof fn lemma_get_none(ps: Seq<SubagentProfile>, name: Seq<char>)
    requires
        !profile_map(ps).contains_key(name),
    ensures
        find_profile(ps, name) is None,
{
}

/// A lookup that succeeds finds the profile so called.
pub proof fn lemma_get_some(ps: Seq<SubagentProfile>, name: Seq<char>)
    requires
        profile_map(ps).contains_key(name),
    ensures
        find_profile(ps, name) is Some,
        profile_map(ps)[name] == find_profile(ps, name)->0,
{
}

/// The message of a refused load or lookup.
pub open spec fn fault_message(f: ProfileFault) -> Seq<char> {
    match f {
        ProfileFault::EmptyName(path) => "profile with empty name in "@ + path,
        ProfileFault::DuplicateName(name, path) => "duplicate profile name '"@ + name + "' in "@
            + path,
        ProfileFault::NotFound(name) => "profile '"@ + name + "' not found"@,
    }
}

impl ProfileError {
    /// The human-readable message of this error.
    pub fn message(&self) -> (r: String)
        ensures
            r@ == fault_message(self@),
    {
        let mut s = String::new();
        match self {
            ProfileError::EmptyName { path } => {
                push_str(&mut s, "profile with empty name in ");
                push_str(&mut s, path.as_str());
            },
            ProfileError::DuplicateName { name, path } => {
                push_str(&mut s, "duplicate profile name '");
                push_str(&mut s, name.as_str());
                push_str(&mut s, "' in ");
                push_str(&mut s, path.as_str());
            },
            ProfileError::NotFound { name } => {
                push_str(&mut s, "profile '");
                push_str(&mut s, name.as_str());
                push_str(&mut s, "' not found");
            },
        }
        proof {
            assert(s@ =~= fault_message(self@));
        }
        s
    }
}

/// A workspace entry wholly replaces the global entry of the same name, and
/// every other name keeps the entry of the one file that has it.
pub proof fn law_workspace_replaces_global(
    g: Seq<SubagentProfile>,
    w: Seq<SubagentProfile>,
    name: Seq<char>,
)
    ensures
        has_name(w, name) ==> profile_map(g + w)[name] == find_profile(w, name)->0,
        !has_name(w, name) ==> find_profile(g + w, name) == find_profile(g, name),
        profile_map(g + w).contains_key(name) <==> (has_name(g, name) || has_name(w, name)),
{
    lemma_find_append(g, w, name);
    lemma_find_some(w, name);
    lemma_find_some(g, name);
    lemma_find_some(g + w, name);
}


/// Where a workspace keeps its profiles: `<working_directory>/.nekocode/agents.toml`.
/// Whether the file is there is the caller's to find out.
pub fn workspace_agents_toml_path(working_directory: &str) -> (r: String)
    ensures
        r@ == join_spec(join_spec(working_directory@, ".nekocode"@), "agents.toml"@),
{
    let dir = join_path(working_directory, ".nekocode");
    join_path(dir.as_str(), "agents.toml")
}

} // verus!
