//! SKILL.md documents: the frontmatter framing, the field rules of the
//! agentskills specification, and the skill that a valid document describes.
use std::collections::HashMap;

use vstd::prelude::*;

use crate::text::{
    all_whitespace, chars_of, find_sub, find_sub_exec, is_all_whitespace, push_decimal, push_str,
    skip_whitespace, string_from_range, trim_start, decimal_string,
};

verus! {

broadcast use vstd::string::group_string_axioms;

/// Where a skill came from.
#[derive(Debug, Clone)]
pub enum SkillSource {
    /// Compiled into the binary.
    Builtin,
    /// Loaded from disk; `manifest_path` points at the SKILL.md.
    UserDefined { manifest_path: String },
}

/// A parsed, specification-compliant skill.
#[derive(Debug, Clone)]
pub struct Skill {
    pub name: String,
    pub description: String,
    pub license: Option<String>,
    pub compatibility: Option<String>,
    pub metadata: HashMap<String, String>,
    pub allowed_tools: Option<String>,
    /// Markdown body after the frontmatter.
    pub body: String,
    pub source: SkillSource,
    /// Skill root directory (parent of SKILL.md); `None` for builtins.
    pub root: Option<String>,
}

/// The fields of a SKILL.md frontmatter block, as read from its YAML, with
/// the metadata values already turned into strings.
#[derive(Debug, Clone, Default)]
pub struct Frontmatter {
    pub name: Option<String>,
    pub description: Option<String>,
    pub license: Option<String>,
    pub compatibility: Option<String>,
    pub metadata: HashMap<String, String>,
    pub allowed_tools: Option<String>,
}

/// Why a SKILL.md document is rejected.
#[derive(Debug, Clone, PartialEq, Eq)]
pub enum SkillError {
    MissingFrontmatter,
    UnclosedFrontmatter,
    InvalidYaml(String),
    MissingName,
    EmptyName,
    NameTooLong(usize),
    NameHyphenEdge(String),
    NameConsecutiveHyphens(String),
    NameInvalidChars(String),
    NameMismatch { name: String, expected: String },
    MissingDescription,
    EmptyDescription,
    DescriptionTooLong(usize),
    EmptyCompatibility,
    CompatibilityTooLong(usize),
}

/// The mathematical content of a [`SkillError`].
pub enum SkillProblem {
    MissingFrontmatter,
    UnclosedFrontmatter,
    InvalidYaml(Seq<char>),
    MissingName,
    EmptyName,
    NameTooLong(nat),
    NameHyphenEdge(Seq<char>),
    NameConsecutiveHyphens(Seq<char>),
    NameInvalidChars(Seq<char>),
    NameMismatch(Seq<char>, Seq<char>),
    MissingDescription,
    EmptyDescription,
    DescriptionTooLong(nat),
    EmptyCompatibility,
    CompatibilityTooLong(nat),
}

impl View for SkillError {
    type V = SkillProblem;

    open spec fn view(&self) -> SkillProblem {
        match self {
            SkillError::MissingFrontmatter => SkillProblem::MissingFrontmatter,
            SkillError::UnclosedFrontmatter => SkillProblem::UnclosedFrontmatter,
            SkillError::InvalidYaml(e) => SkillProblem::InvalidYaml(e@),
            SkillError::MissingName => SkillProblem::MissingName,
            SkillError::EmptyName => SkillProblem::EmptyName,
            SkillError::NameTooLong(n) => SkillProblem::NameTooLong(*n as nat),
            SkillError::NameHyphenEdge(n) => SkillProblem::NameHyphenEdge(n@),
            SkillError::NameConsecutiveHyphens(n) => SkillProblem::NameConsecutiveHyphens(n@),
            SkillError::NameInvalidChars(n) => SkillProblem::NameInvalidChars(n@),
            SkillError::NameMismatch { name, expected } => SkillProblem::NameMismatch(
                name@,
                expected@,
            ),
            SkillError::MissingDescription => SkillProblem::MissingDescription,
            SkillError::EmptyDescription => SkillProblem::EmptyDescription,
            SkillError::DescriptionTooLong(n) => SkillProblem::DescriptionTooLong(*n as nat),
            SkillError::EmptyCompatibility => SkillProblem::EmptyCompatibility,
            SkillError::CompatibilityTooLong(n) => SkillProblem::CompatibilityTooLong(*n as nat),
        }
    }
}

// ---------------------------------------------------------------------------
// Field rules
// ---------------------------------------------------------------------------

/// A character allowed in a skill name: lowercase ASCII letter, digit, `-`.
pub open spec fn is_name_char(c: char) -> bool {
    ('a' <= c && c <= 'z') || ('0' <= c && c <= '9') || c == '-'
}

/// Whether `s` contains `--`.
pub open spec fn has_double_hyphen(s: Seq<char>) -> bool {
    exists|i: int| 0 <= i < s.len() - 1 && s[i] == '-' && #[trigger] s[i + 1] == '-'
}

/// The first rule that a skill name breaks, checked in order: 1 to 64
/// characters, no hyphen at either end, no `--`, only name characters.
pub open spec fn name_problem(n: Seq<char>) -> Option<SkillProblem> {
    if n.len() == 0 {
        Some(SkillProblem::EmptyName)
    } else if n.len() > 64 {
        Some(SkillProblem::NameTooLong(n.len()))
    } else if n[0] == '-' || n.last() == '-' {
        Some(SkillProblem::NameHyphenEdge(n))
    } else if has_double_hyphen(n) {
        Some(SkillProblem::NameConsecutiveHyphens(n))
    } else if exists|i: int| 0 <= i < n.len() && !is_name_char(#[trigger] n[i]) {
        Some(SkillProblem::NameInvalidChars(n))
    } else {
        None
    }
}

/// A skill name is accepted exactly when it has 1 to 64 characters, each a
/// lowercase ASCII letter, an ASCII digit or a hyphen, with no hyphen at
/// either end and no two hyphens in a row.
pub proof fn law_name_rule(n: Seq<char>)
    ensures
        name_problem(n) is None <==> {
            &&& 1 <= n.len() <= 64
            &&& forall|i: int| 0 <= i < n.len() ==> ('a' <= #[trigger] n[i] <= 'z' || '0' <= n[i] <= '9' || n[i] == '-')
            &&& n[0] != '-'
            &&& n[n.len() - 1] != '-'
            &&& forall|i: int| 0 <= i < n.len() - 1 ==> !(n[i] == '-' && #[trigger] n[i + 1] == '-')
        },
{
    if name_problem(n) is None {
        assert forall|i: int| 0 <= i < n.len() implies ('a' <= #[trigger] n[i] <= 'z' || '0' <= n[i] <= '9' || n[i] == '-') by {
            assert(is_name_char(n[i]));
        }
    }
}

/// The rule that a description breaks: not blank, at most 1024 characters.
pub open spec fn description_problem(d: Seq<char>) -> Option<SkillProblem> {
    if all_whitespace(d) {
        Some(SkillProblem::EmptyDescription)
    } else if d.len() > 1024 {
        Some(SkillProblem::DescriptionTooLong(d.len()))
    } else {
        None
    }
}

/// The rule that a compatibility note breaks: 1 to 500 characters.
pub open spec fn compatibility_problem(c: Seq<char>) -> Option<SkillProblem> {
    if c.len() == 0 {
        Some(SkillProblem::EmptyCompatibility)
    } else if c.len() > 500 {
        Some(SkillProblem::CompatibilityTooLong(c.len()))
    } else {
        None
    }
}

/// Checks a skill name against the specification.
pub fn validate_name(name: &str) -> (r: Result<(), SkillError>)
    ensures
        match r {
            Ok(()) => name_problem(name@) is None,
            Err(e) => name_problem(name@) == Some(e@),
        },
{
    let v = chars_of(name);
    let len = v.len();
    if len == 0 {
        return Err(SkillError::EmptyName);
    }
    if len > 64 {
        return Err(SkillError::NameTooLong(len));
    }
    if v[0] == '-' || v[len - 1] == '-' {
        return Err(SkillError::NameHyphenEdge(name.to_owned()));
    }
    let mut i: usize = 0;
    while i + 1 < len
        invariant
            len == v@.len(),
            v@ == name@,
            0 < len <= 64,
            name@[0] != '-' && name@.last() != '-',
            i < len,
            forall|j: int| 0 <= j < i ==> !(v@[j] == '-' && #[trigger] v@[j + 1] == '-'),
        decreases len - i,
    {
        if v[i] == '-' && v[i + 1] == '-' {
            assert(has_double_hyphen(name@));
            return Err(SkillError::NameConsecutiveHyphens(name.to_owned()));
        }
        i += 1;
    }
    assert(!has_double_hyphen(name@)) by {
        assert forall|j: int| 0 <= j < name@.len() - 1 && name@[j] == '-' implies #[trigger] name@[j
            + 1] != '-' by {
            assert(!(v@[j] == '-' && v@[j + 1] == '-'));
        }
    }
    let mut k: usize = 0;
    while k < len
        invariant
            len == v@.len(),
            v@ == name@,
            0 < len <= 64,
            name@[0] != '-' && name@.last() != '-',
            !has_double_hyphen(name@),
            k <= len,
            forall|j: int| 0 <= j < k ==> is_name_char(v@[j]),
        decreases len - k,
    {
        let c = v[k];
        if !(('a' <= c && c <= 'z') || ('0' <= c && c <= '9') || c == '-') {
            assert(!is_name_char(name@[k as int]));
            return Err(SkillError::NameInvalidChars(name.to_owned()));
        }
        k += 1;
    }
    Ok(())
}

/// Checks a skill description against the specification.
pub fn validate_description(desc: &str) -> (r: Result<(), SkillError>)
    ensures
        match r {
            Ok(()) => description_problem(desc@) is None,
            Err(e) => description_problem(desc@) == Some(e@),
        },
{
    let v = chars_of(desc);
    if is_all_whitespace(&v) {
        return Err(SkillError::EmptyDescription);
    }
    let len = v.len();
    if len > 1024 {
        return Err(SkillError::DescriptionTooLong(len));
    }
    Ok(())
}

/// Checks an optional compatibility note against the specification.
pub fn validate_compatibility(value: &str) -> (r: Result<(), SkillError>)
    ensures
        match r {
            Ok(()) => compatibility_problem(value@) is None,
            Err(e) => compatibility_problem(value@) == Some(e@),
        },
{
    let v = chars_of(value);
    let len = v.len();
    if len == 0 {
        return Err(SkillError::EmptyCompatibility);
    }
    if len > 500 {
        return Err(SkillError::CompatibilityTooLong(len));
    }
    Ok(())
}

// ---------------------------------------------------------------------------
// Framing
// ---------------------------------------------------------------------------

/// The `---` that opens a frontmatter block.
pub open spec fn fence() -> Seq<char> {
    seq!['-', '-', '-']
}

/// The `\n---` that closes a frontmatter block.
pub open spec fn closing_fence() -> Seq<char> {
    seq!['\n', '-', '-', '-']
}

/// `s` without its leading line feeds.
pub open spec fn trim_start_newlines(s: Seq<char>) -> Seq<char>
    decreases s.len(),
{
    if s.len() > 0 && s[0] == '\n' {
        trim_start_newlines(s.drop_first())
    } else {
        s
    }
}

/// How a SKILL.md document splits into its YAML frontmatter and its body:
/// after leading whitespace it must open with `---`; the YAML runs up to the
/// first `\n---`, and the body follows it, less its leading line feeds.
pub open spec fn split_spec(content: Seq<char>) -> Result<(Seq<char>, Seq<char>), SkillProblem> {
    let t = trim_start(content);
    if !(t.len() >= 3 && t.take(3) == fence()) {
        Err(SkillProblem::MissingFrontmatter)
    } else {
        let rest = t.skip(3);
        let e = find_sub(rest, closing_fence());
        if e < 0 {
            Err(SkillProblem::UnclosedFrontmatter)
        } else {
            Ok((rest.take(e), trim_start_newlines(rest.skip(e + 4))))
        }
    }
}

fn closing_fence_chars() -> (r: Vec<char>)
    ensures
        r@ == closing_fence(),
{
    let mut r: Vec<char> = Vec::new();
    r.push('\n');
    r.push('-');
    r.push('-');
    r.push('-');
    assert(r@ =~= closing_fence());
    r
}

/// Splits a SKILL.md document into the text of its YAML frontmatter and its
/// Markdown body.
pub fn split_frontmatter(content: &str) -> (r: Result<(String, String), SkillError>)
    ensures
        match r {
            Ok((yaml, body)) => split_spec(content@) == Ok::<_, SkillProblem>((yaml@, body@)),
            Err(e) => split_spec(content@) == Err::<(Seq<char>, Seq<char>), _>(e@),
        },
{
    let v = chars_of(content);
    let n = v.len();
    let lo = skip_whitespace(&v, 0);
    assert(v@.subrange(0, n as int) =~= v@);
    let ghost t = v@.subrange(lo as int, n as int);
    assert(trim_start(content@) == t);
    if !(lo < n && n - lo >= 3 && v[lo] == '-' && v[lo + 1] == '-' && v[lo + 2] == '-') {
        proof {
            if t.len() >= 3 && t.take(3) == fence() {
                assert(t.take(3)[0] == t[0]);
                assert(t.take(3)[1] == t[1]);
                assert(t.take(3)[2] == t[2]);
            }
        }
        return Err(SkillError::MissingFrontmatter);
    }
    assert(t.take(3) =~= fence());
    let mut rest: Vec<char> = Vec::new();
    let mut i = lo + 3;
    while i < n
        invariant
            lo + 3 <= i <= n == v@.len(),
            rest@ == v@.subrange(lo + 3, i as int),
        decreases n - i,
    {
        rest.push(v[i]);
        i += 1;
        assert(rest@ =~= v@.subrange(lo + 3, i as int));
    }
    assert(rest@ =~= t.skip(3));
    let pat = closing_fence_chars();
    match find_sub_exec(&rest, &pat) {
        None => Err(SkillError::UnclosedFrontmatter),
        Some(e) => {
            let yaml = string_from_range(&rest, 0, e);
            assert(rest@.subrange(0, e as int) =~= rest@.take(e as int));
            let m = rest.len();
            let mut b = e + 4;
            assert(trim_start_newlines(rest@.skip(e + 4)) == trim_start_newlines(
                rest@.subrange(b as int, m as int),
            )) by {
                assert(rest@.skip(e + 4) =~= rest@.subrange(b as int, m as int));
            }
            while b < m && rest[b] == '\n'
                invariant
                    e + 4 <= b <= m == rest@.len(),
                    trim_start_newlines(rest@.skip(e + 4)) == trim_start_newlines(
                        rest@.subrange(b as int, m as int),
                    ),
                decreases m - b,
            {
                assert(rest@.subrange(b as int, m as int).drop_first() =~= rest@.subrange(
                    b + 1,
                    m as int,
                ));
                b += 1;
            }
            let body = string_from_range(&rest, b, m);
            Ok((yaml, body))
        },
    }
}

// ---------------------------------------------------------------------------
// The skill a frontmatter describes
// ---------------------------------------------------------------------------

/// The view of an optional string.
pub open spec fn opt_view(o: Option<String>) -> Option<Seq<char>> {
    match o {
        Some(s) => Some(s@),
        None => None,
    }
}

/// The first rule that a frontmatter breaks, in the order the fields are
/// checked: name present and valid, equal to the expected name when one is
/// given, description present and valid, compatibility valid when present.
pub open spec fn frontmatter_problem(fm: Frontmatter, expected_name: Option<Seq<char>>) -> Option<
    SkillProblem,
> {
    match fm.name {
        None => Some(SkillProblem::MissingName),
        Some(name) => if name_problem(name@) is Some {
            name_problem(name@)
        } else if expected_name is Some && name@ != expected_name.unwrap() {
            Some(SkillProblem::NameMismatch(name@, expected_name.unwrap()))
        } else {
            match fm.description {
                None => Some(SkillProblem::MissingDescription),
                Some(desc) => if description_problem(desc@) is Some {
                    description_problem(desc@)
                } else if fm.compatibility is Some && compatibility_problem(
                    fm.compatibility.unwrap()@,
                ) is Some {
                    compatibility_problem(fm.compatibility.unwrap()@)
                } else {
                    None
                },
            }
        },
    }
}

/// The opt-in reference string an `Option<&str>` denotes.
pub open spec fn opt_ref_view(o: Option<&str>) -> Option<Seq<char>> {
    match o {
        Some(s) => Some(s@),
        None => None,
    }
}

/// Builds the skill that a frontmatter and body describe. `expected_name`,
/// when given, must equal the `name` field: the specification requires the
/// name to match the skill's directory. The skill is marked builtin, with no
/// root; a loader that read it from disk sets both.
pub fn skill_from_frontmatter(fm: Frontmatter, body: String, expected_name: Option<&str>) -> (r:
    Result<Skill, SkillError>)
    ensures
        match r {
            Ok(skill) => {
                &&& frontmatter_problem(fm, opt_ref_view(expected_name)) is None
                &&& Some(skill.name@) == opt_view(fm.name)
                &&& Some(skill.description@) == opt_view(fm.description)
                &&& skill.license == fm.license
                &&& skill.compatibility == fm.compatibility
                &&& skill.metadata == fm.metadata
                &&& skill.allowed_tools == fm.allowed_tools
                &&& skill.body == body
                &&& skill.source is Builtin
                &&& skill.root is None
            },
            Err(e) => frontmatter_problem(fm, opt_ref_view(expected_name)) == Some(e@),
        },
{
    let ghost fm0 = fm;
    let name = match fm.name {
        Some(n) => n,
        None => return Err(SkillError::MissingName),
    };
    validate_name(name.as_str())?;
    if let Some(expected) = expected_name {
        if !crate::text::str_equal(name.as_str(), expected) {
            return Err(
                SkillError::NameMismatch { name: name, expected: expected.to_owned() },
            );
        }
    }
    let description = match fm.description {
        Some(d) => d,
        None => return Err(SkillError::MissingDescription),
    };
    validate_description(description.as_str())?;
    match &fm.compatibility {
        Some(c) => {
            validate_compatibility(c.as_str())?;
        },
        None => {},
    }
    Ok(
        Skill {
            name,
            description,
            license: fm.license,
            compatibility: fm.compatibility,
            metadata: fm.metadata,
            allowed_tools: fm.allowed_tools,
            body,
            source: SkillSource::Builtin,
            root: None,
        },
    )
}

// ---------------------------------------------------------------------------
// Messages
// ---------------------------------------------------------------------------

/// The message that describes a rejected document.
pub open spec fn problem_message(p: SkillProblem) -> Seq<char> {
    match p {
        SkillProblem::MissingFrontmatter => "SKILL.md must start with a YAML frontmatter block (---)"@,
        SkillProblem::UnclosedFrontmatter => "SKILL.md frontmatter missing closing ---"@,
        SkillProblem::InvalidYaml(e) => "Invalid YAML frontmatter: "@ + e,
        SkillProblem::MissingName => "SKILL.md frontmatter missing required field: name"@,
        SkillProblem::EmptyName => "`name` must be 1-64 characters (was empty)"@,
        SkillProblem::NameTooLong(n) => "`name` must be at most 64 characters (was "@
            + decimal_string(n) + ")"@,
        SkillProblem::NameHyphenEdge(n) => "`name` must not start or end with a hyphen: "@ + n,
        SkillProblem::NameConsecutiveHyphens(n) => "`name` must not contain consecutive hyphens: "@
            + n,
        SkillProblem::NameInvalidChars(n) =>
            "`name` may only contain lowercase letters, digits, and hyphens: "@ + n,
        SkillProblem::NameMismatch(n, x) => "SKILL.md `name` ("@ + n
            + ") must match parent directory name ("@ + x + ")"@,
        SkillProblem::MissingDescription =>
            "SKILL.md frontmatter missing required field: description"@,
        SkillProblem::EmptyDescription => "`description` must be non-empty"@,
        SkillProblem::DescriptionTooLong(n) => "`description` must be at most 1024 characters (was "@
            + decimal_string(n) + ")"@,
        SkillProblem::EmptyCompatibility => "`compatibility` must be 1-500 characters when present"@,
        SkillProblem::CompatibilityTooLong(n) =>
            "`compatibility` must be at most 500 characters (was "@ + decimal_string(n) + ")"@,
    }
}

impl SkillError {
    /// The human-readable message of this error.
    pub fn message(&self) -> (r: String)
        ensures
            r@ == problem_message(self@),
    {
        let mut s = String::new();
        match self {
            SkillError::MissingFrontmatter => {
                push_str(&mut s, "SKILL.md must start with a YAML frontmatter block (---)");
            },
            SkillError::UnclosedFrontmatter => {
                push_str(&mut s, "SKILL.md frontmatter missing closing ---");
            },
            SkillError::InvalidYaml(e) => {
                push_str(&mut s, "Invalid YAML frontmatter: ");
                push_str(&mut s, e.as_str());
            },
            SkillError::MissingName => {
                push_str(&mut s, "SKILL.md frontmatter missing required field: name");
            },
            SkillError::EmptyName => {
                push_str(&mut s, "`name` must be 1-64 characters (was empty)");
            },
            SkillError::NameTooLong(n) => {
                push_str(&mut s, "`name` must be at most 64 characters (was ");
                push_decimal(&mut s, *n as u64);
                push_str(&mut s, ")");
            },
            SkillError::NameHyphenEdge(n) => {
                push_str(&mut s, "`name` must not start or end with a hyphen: ");
                push_str(&mut s, n.as_str());
            },
            SkillError::NameConsecutiveHyphens(n) => {
                push_str(&mut s, "`name` must not contain consecutive hyphens: ");
                push_str(&mut s, n.as_str());
            },
            SkillError::NameInvalidChars(n) => {
                push_str(&mut s, "`name` may only contain lowercase letters, digits, and hyphens: ");
                push_str(&mut s, n.as_str());
            },
            SkillError::NameMismatch { name, expected } => {
                push_str(&mut s, "SKILL.md `name` (");
                push_str(&mut s, name.as_str());
                push_str(&mut s, ") must match parent directory name (");
                push_str(&mut s, expected.as_str());
                push_str(&mut s, ")");
            },
            SkillError::MissingDescription => {
                push_str(&mut s, "SKILL.md frontmatter missing required field: description");
            },
            SkillError::EmptyDescription => {
                push_str(&mut s, "`description` must be non-empty");
            },
            SkillError::DescriptionTooLong(n) => {
                push_str(&mut s, "`description` must be at most 1024 characters (was ");
                push_decimal(&mut s, *n as u64);
                push_str(&mut s, ")");
            },
            SkillError::EmptyCompatibility => {
                push_str(&mut s, "`compatibility` must be 1-500 characters when present");
            },
            SkillError::CompatibilityTooLong(n) => {
                push_str(&mut s, "`compatibility` must be at most 500 characters (was ");
                push_decimal(&mut s, *n as u64);
                push_str(&mut s, ")");
            },
        }
        s
    }
}

} // verus!
