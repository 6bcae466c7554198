//! The skills middleware's logic: which loaded skills are enabled, the
//! catalog that the system prompt gains, and the lookups of the skill
//! tools. Loading SKILL.md files and reading skill files is the caller's
//! part.
use vstd::prelude::*;

use crate::file::{is_absolute_spec, join_path, join_spec, path_segments, required_str, required_str_spec, segments, ToolErrorText, error_text};
use crate::message::{ToolError, ToolErrorView};
use crate::skill::Skill;
use crate::text::{push_str, str_equal};

verus! {

broadcast use vstd::string::group_string_axioms;

/// The skills middleware's configuration: the names of the enabled skills.
#[derive(Debug, Clone, Default)]
pub struct SkillsConfig {
    pub enabled: Vec<String>,
}

/// Where the skills of a user live on disk.
#[derive(Debug, Clone)]
pub struct SkillLoader {
    pub skills_dir: String,
}

impl SkillLoader {
    /// A loader of the skills under `skills_dir`.
    pub fn new(skills_dir: String) -> (r: Self)
        ensures
            r.skills_dir == skills_dir,
    {
        SkillLoader { skills_dir }
    }
}

// ---------------------------------------------------------------------------
// Name order
// ---------------------------------------------------------------------------

/// Whether `a` comes before `b` in the order of `String`: character by
/// character, by code point, a prefix first.
pub open spec fn name_lt(a: Seq<char>, b: Seq<char>) -> bool
    decreases a.len(),
{
    if a.len() == 0 {
        b.len() > 0
    } else if b.len() == 0 {
        false
    } else if a[0] != b[0] {
        (a[0] as int) < (b[0] as int)
    } else {
        name_lt(a.drop_first(), b.drop_first())
    }
}

proof fn lemma_name_lt_irreflexive(a: Seq<char>)
    ensures
        !name_lt(a, a),
    decreases a.len(),
{
    if a.len() > 0 {
        lemma_name_lt_irreflexive(a.drop_first());
    }
}

proof fn lemma_name_lt_transitive(a: Seq<char>, b: Seq<char>, c: Seq<char>)
    requires
        name_lt(a, b),
        name_lt(b, c),
    ensures
        name_lt(a, c),
    decreases a.len(),
{
    if a.len() > 0 && b.len() > 0 && c.len() > 0 && a[0] == b[0] && b[0] == c[0] {
        lemma_name_lt_transitive(a.drop_first(), b.drop_first(), c.drop_first());
    }
}

proof fn lemma_name_lt_total(a: Seq<char>, b: Seq<char>)
    requires
        a != b,
    ensures
        name_lt(a, b) || name_lt(b, a),
    decreases a.len(),
{
    if a.len() > 0 && b.len() > 0 && a[0] == b[0] {
        if a.drop_first() =~= b.drop_first() {
            assert(a =~= b) by {
                assert forall|i: int| 0 <= i < a.len() implies a[i] == b[i] by {
                    if i > 0 {
                        assert(a[i] == a.drop_first()[i - 1]);
                        assert(b[i] == b.drop_first()[i - 1]);
                    }
                }
            }
        } else {
            lemma_name_lt_total(a.drop_first(), b.drop_first());
        }
    } else if a.len() == 0 && b.len() == 0 {
        assert(a =~= b);
    }
}

/// Whether `a` comes before `b` in the order of `String`.
pub fn name_before(a: &str, b: &str) -> (r: bool)
    ensures
        r == name_lt(a@, b@),
{
    let x = crate::text::chars_of(a);
    let y = crate::text::chars_of(b);
    let mut i: usize = 0;
    assert(x@.skip(0) =~= x@);
    assert(y@.skip(0) =~= y@);
    while i < x.len() && i < y.len() && x[i] == y[i]
        invariant
            i <= x@.len(),
            i <= y@.len(),
            name_lt(x@, y@) == name_lt(x@.skip(i as int), y@.skip(i as int)),
        decreases x.len() - i,
    {
        proof {
            assert(x@.skip(i as int).drop_first() =~= x@.skip(i + 1));
            assert(y@.skip(i as int).drop_first() =~= y@.skip(i + 1));
        }
        i += 1;
    }
    if i == x.len() {
        i < y.len()
    } else if i == y.len() {
        false
    } else {
        x[i] < y[i]
    }
}

// ---------------------------------------------------------------------------
// Enabled skills
// ---------------------------------------------------------------------------

/// Whether some loaded skill is called `name`.
pub open spec fn loaded(skills: Seq<Skill>, name: Seq<char>) -> bool {
    exists|j: int| 0 <= j < skills.len() && (#[trigger] skills[j]).name@ == name
}

/// Whether `name` is both enabled and loaded.
pub open spec fn is_enabled(skills: Seq<Skill>, enabled: Seq<String>, name: Seq<char>) -> bool {
    loaded(skills, name) && exists|i: int| 0 <= i < enabled.len() && (#[trigger] enabled[i])@ == name
}

/// The skill that a lookup of `name` finds: the last loaded one so called.
pub open spec fn last_index(skills: Seq<Skill>, name: Seq<char>) -> int
    decreases skills.len(),
{
    if skills.len() == 0 {
        -1
    } else if skills.last().name@ == name {
        skills.len() - 1
    } else {
        last_index(skills.drop_last(), name)
    }
}

/// The skills a loader gives: the builtins first, then the skills read from
/// disk; a lookup takes the last skill of a name, so a skill on disk
/// replaces a builtin of its name, and a later one an earlier one.
pub fn loaded_skills(builtins: Vec<Skill>, user: Vec<Skill>) -> (r: Vec<Skill>)
    ensures
        r@ == builtins@ + user@,
{
    let mut r = builtins;
    let mut u = user;
    r.append(&mut u);
    r
}

/// A lookup among skills loaded in two parts finds the second part's skill
/// of the name when there is one, and otherwise the first part's.
pub proof fn law_later_skill_replaces_earlier(b: Seq<Skill>, u: Seq<Skill>, n: Seq<char>)
    ensures
        last_index(u, n) >= 0 ==> last_index(b + u, n) == b.len() + last_index(u, n),
        last_index(u, n) < 0 ==> last_index(b + u, n) == last_index(b, n),
    decreases u.len(),
{
    if u.len() == 0 {
        assert(b + u =~= b);
    } else {
        assert((b + u).drop_last() =~= b + u.drop_last());
        assert((b + u).last() == u.last());
        law_later_skill_replaces_earlier(b, u.drop_last(), n);
    }
}

/// Positions of the enabled skills, one per enabled name that is loaded,
/// in increasing name order.
pub open spec fn enabled_order_ok(skills: Seq<Skill>, enabled: Seq<String>, r: Seq<usize>) -> bool {
    &&& forall|k: int| 0 <= k < r.len() ==> (#[trigger] r[k]) == last_index(skills, skills[r[k] as int].name@)
    &&& forall|k: int| 0 <= k < r.len() ==> 0 <= #[trigger] r[k] < skills.len()
    &&& forall|k: int, l: int| 0 <= k < l < r.len() ==> name_lt(skills[#[trigger] r[k] as int].name@, skills[#[trigger] r[l] as int].name@)
    &&& forall|n: Seq<char>| #[trigger] is_enabled(skills, enabled, n) <==> exists|k: int| 0 <= k < r.len() && skills[(#[trigger] r[k]) as int].name@ == n
}

proof fn lemma_last_index(skills: Seq<Skill>, name: Seq<char>)
    ensures
        -1 <= last_index(skills, name) < skills.len(),
        last_index(skills, name) >= 0 ==> skills[last_index(skills, name)].name@ == name,
        last_index(skills, name) < 0 <==> !loaded(skills, name),
        forall|j: int| last_index(skills, name) < j < skills.len() ==> (#[trigger] skills[j]).name@ != name,
    decreases skills.len(),
{
    if skills.len() > 0 {
        let init = skills.drop_last();
        lemma_last_index(init, name);
        assert(skills[skills.len() - 1] == skills.last());
        if skills.last().name@ != name {
            assert forall|j: int| last_index(skills, name) < j < skills.len() implies (
            #[trigger] skills[j]).name@ != name by {
                if j < init.len() {
                    assert(skills[j] == init[j]);
                }
            }
            if loaded(skills, name) {
                let j = choose|j: int| 0 <= j < skills.len() && (#[trigger] skills[j]).name@ == name;
                assert(j < init.len());
                assert(init[j] == skills[j]);
            }
            if loaded(init, name) {
                let j = choose|j: int| 0 <= j < init.len() && (#[trigger] init[j]).name@ == name;
                assert(init[j] == skills[j]);
            }
            if last_index(init, name) >= 0 {
                assert(init[last_index(init, name)] == skills[last_index(init, name)]);
            }
        }
    }
}

/// The last loaded skill called `name`, if any.
fn find_last(skills: &Vec<Skill>, name: &str) -> (r: Option<usize>)
    ensures
        match r {
            Some(i) => i as int == last_index(skills@, name@),
            None => last_index(skills@, name@) < 0,
        },
{
    proof {
        lemma_last_index(skills@, name@);
    }
    let mut i = skills.len();
    while i > 0
        invariant
            i <= skills@.len(),
            -1 <= last_index(skills@, name@) < skills@.len(),
            last_index(skills@, name@) >= 0 ==> skills@[last_index(skills@, name@)].name@ == name@,
            forall|j: int| last_index(skills@, name@) < j < skills@.len() ==> (#[trigger] skills@[j]).name@ != name@,
            forall|j: int| i <= j < skills@.len() ==> (#[trigger] skills@[j]).name@ != name@,
        decreases i,
    {
        if str_equal(skills[i - 1].name.as_str(), name) {
            return Some(i - 1);
        }
        i -= 1;
    }
    None
}

/// The positions of the enabled skills among the loaded ones, in increasing
/// name order, each name once: a name that is enabled but not loaded is
/// left out, and of two loaded skills with one name the later counts.
pub fn enabled_skill_indices(skills: &Vec<Skill>, enabled: &Vec<String>) -> (r: Vec<usize>)
    ensures
        enabled_order_ok(skills@, enabled@, r@),
{
    let mut r: Vec<usize> = Vec::new();
    for e in 0..enabled.len()
        invariant
            enabled_order_ok(skills@, enabled@.take(e as int), r@),
    {
        proof {
            assert forall|n: Seq<char>| #[trigger] is_enabled(skills@, enabled@.take(e + 1), n) <==> (
                is_enabled(skills@, enabled@.take(e as int), n) || (loaded(skills@, n) && n == enabled@[e as int]@)
            ) by {
                if is_enabled(skills@, enabled@.take(e + 1), n) {
                    let i = choose|i: int| 0 <= i < enabled@.take(e + 1).len() && (#[trigger] enabled@.take(e + 1)[i])@ == n;
                    if i < e {
                        assert(enabled@.take(e as int)[i] == enabled@.take(e + 1)[i]);
                    }
                }
                if is_enabled(skills@, enabled@.take(e as int), n) {
                    let i = choose|i: int| 0 <= i < enabled@.take(e as int).len() && (#[trigger] enabled@.take(e as int)[i])@ == n;
                    assert(enabled@.take(e as int)[i] == enabled@.take(e + 1)[i]);
                }
                if loaded(skills@, n) && n == enabled@[e as int]@ {
                    assert(enabled@.take(e + 1)[e as int] == enabled@[e as int]);
                }
            }
        }
        match find_last(skills, enabled[e].as_str()) {
            None => {
                proof {
                    lemma_last_index(skills@, enabled@[e as int]@);
                }
            },
            Some(idx) => {
                proof {
                    lemma_last_index(skills@, enabled@[e as int]@);
                }
                let name = skills[idx].name.as_str();
                let mut p: usize = 0;
                while p < r.len() && name_before(skills[r[p]].name.as_str(), name)
                    invariant
                        p <= r@.len(),
                        0 <= idx < skills@.len(),
                        name@ == skills@[idx as int].name@,
                        forall|k: int| 0 <= k < r@.len() ==> 0 <= #[trigger] r@[k] < skills@.len(),
                        forall|k: int| 0 <= k < p ==> name_lt(skills@[(#[trigger] r@[k]) as int].name@, name@),
                    decreases r@.len() - p,
                {
                    p += 1;
                }
                let present = p < r.len() && str_equal(skills[r[p]].name.as_str(), name);
                if !present {
                    let ghost before = r@;
                    proof {
                        assert forall|k: int| p <= k < before.len() implies name_lt(name@, skills@[(#[trigger] before[k]) as int].name@) by {
                            let y = skills@[before[p as int] as int].name@;
                            assert(!name_lt(y, name@));
                            assert(y != name@);
                            lemma_name_lt_total(y, name@);
                            if k > p {
                                lemma_name_lt_transitive(name@, y, skills@[before[k] as int].name@);
                            }
                        }
                    }
                    r.insert(p, idx);
                    proof {
                        let t = r@;
                        assert(t =~= before.insert(p as int, idx));
                        assert forall|k: int, l: int| 0 <= k < l < t.len() implies name_lt(skills@[#[trigger] t[k] as int].name@, skills@[#[trigger] t[l] as int].name@) by {
                            let k0 = if k < p { k } else { k - 1 };
                            let l0 = if l < p { l } else { l - 1 };
                            if k != p && l != p {
                                assert(t[k] == before[k0]);
                                assert(t[l] == before[l0]);
                            } else if k == p {
                                assert(t[l] == before[l0]);
                            } else {
                                assert(t[k] == before[k0]);
                            }
                        }
                        assert forall|n: Seq<char>| #[trigger] is_enabled(skills@, enabled@.take(e + 1), n) implies exists|k: int| 0 <= k < t.len() && skills@[(#[trigger] t[k]) as int].name@ == n by {
                            if n == enabled@[e as int]@ && loaded(skills@, n) {
                                assert(t[p as int] == idx);
                            } else {
                                let k = choose|k: int| 0 <= k < before.len() && skills@[(#[trigger] before[k]) as int].name@ == n;
                                let k1 = if k < p { k } else { k + 1 };
                                assert(t[k1] == before[k]);
                            }
                        }
                        assert forall|n: Seq<char>| (exists|k: int| 0 <= k < t.len() && skills@[(#[trigger] t[k]) as int].name@ == n) implies #[trigger] is_enabled(skills@, enabled@.take(e + 1), n) by {
                            let k = choose|k: int| 0 <= k < t.len() && skills@[(#[trigger] t[k]) as int].name@ == n;
                            if k != p {
                                let k0 = if k < p { k } else { k - 1 };
                                assert(t[k] == before[k0]);
                            } else {
                                assert(skills@[idx as int].name@ == n);
                                assert(loaded(skills@, n));
                            }
                        }
                        assert forall|k: int| 0 <= k < t.len() implies (#[trigger] t[k]) == last_index(skills@, skills@[t[k] as int].name@) by {
                            if k != p {
                                let k0 = if k < p { k } else { k - 1 };
                                assert(t[k] == before[k0]);
                            }
                        }
                    }
                } else {
                    proof {
                        assert forall|n: Seq<char>| #[trigger] is_enabled(skills@, enabled@.take(e + 1), n) implies exists|k: int| 0 <= k < r@.len() && skills@[(#[trigger] r@[k]) as int].name@ == n by {
                            if n == enabled@[e as int]@ && loaded(skills@, n) {
                                assert(skills@[r@[p as int] as int].name@ == n);
                            }
                        }
                    }
                }
            },
        }
    }
    assert(enabled@.take(enabled@.len() as int) =~= enabled@);
    r
}

// ---------------------------------------------------------------------------
// The catalog
// ---------------------------------------------------------------------------

/// What the catalog says before its entries.
pub open spec fn catalog_intro() -> Seq<char> {
    "The following skills are available. Each entry is a short catalog summary; the full instructions live in the skill's SKILL.md body and bundled files. BEFORE acting on a task that any listed skill is relevant for, call `read_skill` with that skill's name to load its full instructions. Use `read_skill_file` to read referenced files under the skill's root (e.g. references/REFERENCE.md, scripts/extract.py).\n\n"@
}

/// The catalog entry of a skill: its name, its description, and its root
/// where it has one.
pub open spec fn catalog_entry(s: Skill) -> Seq<char> {
    "- name: "@ + s.name@ + "\n  description: "@ + s.description@ + match s.root {
        Some(r) => "\n  root: "@ + r@,
        None => Seq::empty(),
    }
}

/// Catalog entries joined by line feeds.
pub open spec fn catalog_body(skills: Seq<Skill>, idx: Seq<usize>) -> Seq<char>
    decreases idx.len(),
{
    if idx.len() == 0 {
        Seq::empty()
    } else if idx.len() == 1 {
        catalog_entry(skills[idx[0] as int])
    } else {
        catalog_body(skills, idx.drop_last()) + "\n"@ + catalog_entry(skills[idx.last() as int])
    }
}

/// The system prompt with the catalog of the skills at `idx`: the catalog
/// alone when there was no prompt (or an empty one), else the catalog, a
/// blank line and the prompt.
pub open spec fn catalog_prompt_spec(skills: Seq<Skill>, idx: Seq<usize>, existing: Option<Seq<char>>) -> Seq<char> {
    let catalog = catalog_intro() + catalog_body(skills, idx);
    match existing {
        Some(p) => if p.len() == 0 { catalog } else { catalog + "\n\n"@ + p },
        None => catalog,
    }
}

/// One catalog entry.
fn push_entry(out: &mut String, s: &Skill)
    ensures
        final(out)@ == old(out)@ + catalog_entry(*s),
{
    push_str(out, "- name: ");
    push_str(out, s.name.as_str());
    push_str(out, "\n  description: ");
    push_str(out, s.description.as_str());
    match &s.root {
        Some(r) => {
            push_str(out, "\n  root: ");
            push_str(out, r.as_str());
        },
        None => {},
    }
    assert(final(out)@ =~= old(out)@ + catalog_entry(*s));
}

/// The system prompt that tells the model of the skills at `idx`.
pub fn catalog_prompt(skills: &Vec<Skill>, idx: &Vec<usize>, existing: Option<String>) -> (r: String)
    requires
        forall|k: int| 0 <= k < idx@.len() ==> 0 <= #[trigger] idx@[k] < skills@.len(),
    ensures
        r@ == catalog_prompt_spec(skills@, idx@, match existing {
            Some(p) => Some(p@),
            None => None,
        }),
{
    let mut out = String::new();
    push_str(&mut out, "The following skills are available. Each entry is a short catalog summary; the full instructions live in the skill's SKILL.md body and bundled files. BEFORE acting on a task that any listed skill is relevant for, call `read_skill` with that skill's name to load its full instructions. Use `read_skill_file` to read referenced files under the skill's root (e.g. references/REFERENCE.md, scripts/extract.py).\n\n");
    let ghost intro = out@;
    for k in 0..idx.len()
        invariant
            forall|j: int| 0 <= j < idx@.len() ==> 0 <= #[trigger] idx@[j] < skills@.len(),
            out@ == intro + catalog_body(skills@, idx@.take(k as int)),
    {
        proof {
            assert(idx@.take(k + 1).drop_last() =~= idx@.take(k as int));
            assert(idx@.take(k + 1).last() == idx@[k as int]);
            if k == 0 {
                assert(idx@.take(1)[0] == idx@[0]);
            }
        }
        if k > 0 {
            push_str(&mut out, "\n");
        }
        push_entry(&mut out, &skills[idx[k]]);
        proof {
            assert(out@ =~= intro + catalog_body(skills@, idx@.take(k + 1)));
        }
    }
    assert(idx@.take(idx@.len() as int) =~= idx@);
    match existing {
        Some(p) => {
            if p.as_str().is_empty() {
                out
            } else {
                push_str(&mut out, "\n\n");
                push_str(&mut out, p.as_str());
                out
            }
        },
        None => out,
    }
}

// ---------------------------------------------------------------------------
// The skill tools
// ---------------------------------------------------------------------------

/// The `read_skill` tool, over the enabled skills.
#[derive(Debug, Clone)]
pub struct ReadSkillTool {
    pub skills: Vec<Skill>,
}

/// The `read_skill_file` tool, over the enabled skills.
#[derive(Debug, Clone)]
pub struct ReadSkillFileTool {
    pub skills: Vec<Skill>,
}

impl ReadSkillTool {
    /// The enabled skill called `name`.
    pub fn lookup(&self, name: &str) -> (r: Result<&Skill, ToolError>)
        ensures
            match r {
                Ok(s) => last_index(self.skills@, name@) >= 0 && *s == self.skills@[last_index(self.skills@, name@)],
                Err(e) => last_index(self.skills@, name@) < 0 && e@ == ToolErrorView::InvalidParameters(
                    "Unknown skill '"@ + name@ + "'. Only enabled skills are readable; check the catalog."@,
                ),
            },
    {
        proof {
            lemma_last_index(self.skills@, name@);
        }
        match find_last(&self.skills, name) {
            Some(i) => Ok(&self.skills[i]),
            None => {
                let mut m = String::new();
                push_str(&mut m, "Unknown skill '");
                push_str(&mut m, name);
                push_str(&mut m, "'. Only enabled skills are readable; check the catalog.");
                Err(ToolError::InvalidParameters(m))
            },
        }
    }
    /// The skill that a `read_skill` call with `params` asks for: the
    /// `name` parameter must be given, and must name an enabled skill.
    pub fn requested(&self, params: &serde_json::Value) -> (r: Result<&Skill, ToolError>)
        ensures
            match required_str_spec(*params, "name"@) {
                Err(t) => r is Err && error_text(r->Err_0) == t,
                Ok(name) => match r {
                    Ok(s) => last_index(self.skills@, name) >= 0 && *s == self.skills@[last_index(self.skills@, name)],
                    Err(e) => last_index(self.skills@, name) < 0 && e@ == ToolErrorView::InvalidParameters(
                        "Unknown skill '"@ + name + "'. Only enabled skills are readable; check the catalog."@,
                    ),
                },
            },
    {
        proof {
            reveal_strlit("name");
        }
        let name = match required_str(params, "name") {
            Ok(n) => n,
            Err(e) => return Err(e),
        };
        self.lookup(name.as_str())
    }
}

impl ReadSkillFileTool {
    /// The skill root and the target path that a `read_skill_file` call
    /// with `params` asks for: the `skill` and `path` parameters must be
    /// given, in that order of checking, and then as in [`Self::target`].
    pub fn requested(&self, params: &serde_json::Value) -> (r: Result<(String, String), ToolError>)
        ensures
            match required_str_spec(*params, "skill"@) {
                Err(t) => r is Err && error_text(r->Err_0) == t,
                Ok(skill_name) => match required_str_spec(*params, "path"@) {
                    Err(t) => r is Err && error_text(r->Err_0) == t,
                    Ok(rel_path) => match r {
                        Ok((root, target)) => {
                            let i = last_index(self.skills@, skill_name);
                            &&& i >= 0
                            &&& self.skills@[i].root is Some
                            &&& root@ == self.skills@[i].root->0@
                            &&& target@ == join_spec(root@, rel_path)
                        },
                        Err(e) => {
                            let i = last_index(self.skills@, skill_name);
                            if i < 0 {
                                e@ == ToolErrorView::InvalidParameters("Unknown skill '"@ + skill_name + "'."@)
                            } else {
                                &&& self.skills@[i].root is None
                                &&& e@ == ToolErrorView::ExecutionError(
                                    "Skill '"@ + skill_name + "' is a builtin and has no on-disk files."@,
                                )
                            }
                        },
                    },
                },
            },
    {
        proof {
            reveal_strlit("skill");
            reveal_strlit("path");
        }
        let skill_name = match required_str(params, "skill") {
            Ok(n) => n,
            Err(e) => return Err(e),
        };
        let rel_path = match required_str(params, "path") {
            Ok(p) => p,
            Err(e) => return Err(e),
        };
        self.target(skill_name.as_str(), rel_path.as_str())
    }

    /// The path under the root of the enabled skill `skill_name` that a
    /// read of `rel_path` asks for: an unknown skill is an invalid
    /// parameter, and a builtin skill has no files.
    pub fn target(&self, skill_name: &str, rel_path: &str) -> (r: Result<(String, String), ToolError>)
        ensures
            match r {
                Ok((root, target)) => {
                    let i = last_index(self.skills@, skill_name@);
                    &&& i >= 0
                    &&& self.skills@[i].root is Some
                    &&& root@ == self.skills@[i].root->0@
                    &&& target@ == join_spec(root@, rel_path@)
                },
                Err(e) => {
                    let i = last_index(self.skills@, skill_name@);
                    if i < 0 {
                        e@ == ToolErrorView::InvalidParameters("Unknown skill '"@ + skill_name@ + "'."@)
                    } else {
                        &&& self.skills@[i].root is None
                        &&& e@ == ToolErrorView::ExecutionError(
                            "Skill '"@ + skill_name@ + "' is a builtin and has no on-disk files."@,
                        )
                    }
                },
            },
    {
        let i = match find_last(&self.skills, skill_name) {
            Some(i) => i,
            None => {
                let mut m = String::new();
                push_str(&mut m, "Unknown skill '");
                push_str(&mut m, skill_name);
                push_str(&mut m, "'.");
                return Err(ToolError::InvalidParameters(m));
            },
        };
        proof {
            lemma_last_index(self.skills@, skill_name@);
        }
        match &self.skills[i].root {
            None => {
                let mut m = String::new();
                push_str(&mut m, "Skill '");
                push_str(&mut m, skill_name);
                push_str(&mut m, "' is a builtin and has no on-disk files.");
                Err(ToolError::ExecutionError(m))
            },
            Some(root) => {
                let target = join_path(root.as_str(), rel_path);
                Ok((root.clone(), target))
            },
        }
    }
}

/// Whether `p` lies at or below `root` (`Path::starts_with`): both absolute
/// or both relative, and the components of `root` begin those of `p`.
pub open spec fn starts_with_spec(p: Seq<char>, root: Seq<char>) -> bool {
    &&& is_absolute_spec(p) == is_absolute_spec(root)
    &&& segments(root).len() <= segments(p).len()
    &&& segments(p).take(segments(root).len() as int) == segments(root)
}

/// What reading a skill file at `target` below `root` comes to, given the
/// outcomes of canonicalizing both: the canonical target when it lies
/// inside the canonical root, else the failure's message.
pub open spec fn resolve_within_spec(
    root: Seq<char>,
    target: Seq<char>,
    root_canon: Result<Seq<char>, Seq<char>>,
    target_canon: Result<Seq<char>, Seq<char>>,
) -> Result<Seq<char>, Seq<char>> {
    match root_canon {
        Err(e) => Err("Failed to canonicalize skill root "@ + root + ": "@ + e),
        Ok(rc) => match target_canon {
            Err(e) => Err("File not found inside skill root: "@ + target + " ("@ + e + ")"@),
            Ok(tc) => if starts_with_spec(tc, rc) {
                Ok(tc)
            } else {
                Err("Path escapes skill root: "@ + tc + " is not inside "@ + rc)
            },
        },
    }
}

/// Keeps a skill file read inside the skill's root. `root_canon` and
/// `target_canon` are the outcomes of canonicalizing `root` and `target`
/// (the canonical path, or the error's text), which the caller reads from
/// the file system.
pub fn resolve_within(root: &str, target: &str, root_canon: Result<String, String>, target_canon: Result<String, String>) -> (r: Result<String, String>)
    ensures
        match resolve_within_spec(root@, target@, match root_canon {
            Ok(c) => Ok(c@),
            Err(e) => Err(e@),
        }, match target_canon {
            Ok(c) => Ok(c@),
            Err(e) => Err(e@),
        }) {
            Ok(p) => r is Ok && r->Ok_0@ == p,
            Err(m) => r is Err && r->Err_0@ == m,
        },
{
    let rc = match root_canon {
        Err(e) => {
            let mut m = String::new();
            push_str(&mut m, "Failed to canonicalize skill root ");
            push_str(&mut m, root);
            push_str(&mut m, ": ");
            push_str(&mut m, e.as_str());
            return Err(m);
        },
        Ok(c) => c,
    };
    let tc = match target_canon {
        Err(e) => {
            let mut m = String::new();
            push_str(&mut m, "File not found inside skill root: ");
            push_str(&mut m, target);
            push_str(&mut m, " (");
            push_str(&mut m, e.as_str());
            push_str(&mut m, ")");
            return Err(m);
        },
        Ok(c) => c,
    };
    let inside = crate::file::is_absolute(tc.as_str()) == crate::file::is_absolute(rc.as_str())
        && crate::file::segs_start_with(&path_segments(tc.as_str()), &path_segments(rc.as_str()));
    if inside {
        Ok(tc)
    } else {
        let mut m = String::new();
        push_str(&mut m, "Path escapes skill root: ");
        push_str(&mut m, tc.as_str());
        push_str(&mut m, " is not inside ");
        push_str(&mut m, rc.as_str());
        Err(m)
    }
}

} // verus!
