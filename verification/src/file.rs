//! The file tools' logic: resolving a path against the configured working
//! directory and keeping it inside (Unix path rules), choosing a range of
//! lines, and replacing text.
use vstd::prelude::*;

use crate::message::{json_bool_at, json_bool_field, json_str_at, json_str_field, json_u64_at, json_u64_field, ToolError};
use crate::text::{chars_of, push_char, push_decimal, push_str, string_from_chars, trim, trim_string};

verus! {

broadcast use vstd::string::group_string_axioms;

/// The file tools' configuration: the directory that relative paths resolve
/// against and that file access is kept inside, when one is set.
#[derive(Debug, Clone, Default)]
pub struct FileConfig {
    pub working_directory: Option<String>,
}

/// Where a file operation takes place.
#[derive(Debug, Clone)]
pub enum ResolvedFile {
    /// No working directory: the path as resolved.
    Ambient(String),
    /// Inside the working directory `base`, at `relative` below it.
    Sandboxed { base: String, relative: String, display: String },
}

impl ResolvedFile {
    /// The path to show for this file.
    pub fn display_path(&self) -> (r: &str)
        ensures
            r@ == match self {
                ResolvedFile::Ambient(p) => p@,
                ResolvedFile::Sandboxed { display, .. } => display@,
            },
    {
        match self {
            ResolvedFile::Ambient(path) => path.as_str(),
            ResolvedFile::Sandboxed { display, .. } => display.as_str(),
        }
    }
}

// ---------------------------------------------------------------------------
// Unix path rules
// ---------------------------------------------------------------------------

/// Whether a path is absolute: it starts at the root.
pub open spec fn is_absolute_spec(p: Seq<char>) -> bool {
    p.len() > 0 && p[0] == '/'
}

/// `base` joined with `p` (`Path::join`): an absolute `p` replaces `base`;
/// otherwise `p` is appended, after a separator unless `base` is empty or
/// already ends with one.
pub open spec fn join_spec(base: Seq<char>, p: Seq<char>) -> Seq<char> {
    if is_absolute_spec(p) {
        p
    } else if base.len() == 0 || base.last() == '/' {
        base + p
    } else {
        base + "/"@ + p
    }
}

/// The path that a tool argument names: an absolute path as it is, a
/// relative one below the working directory when one is set.
pub open spec fn resolve_path_spec(wd: Option<Seq<char>>, p: Seq<char>) -> Seq<char> {
    if is_absolute_spec(p) {
        p
    } else {
        match wd {
            Some(base) => join_spec(base, p),
            None => p,
        }
    }
}

/// A segment of a path that names something (`Component::Normal` or `..`):
/// neither empty nor `.`.
pub open spec fn keeps_segment(seg: Seq<char>) -> bool {
    seg.len() > 0 && seg != "."@
}

/// The segments found so far and the segment being read, after reading `p`.
pub open spec fn segment_state(p: Seq<char>) -> (Seq<Seq<char>>, Seq<char>)
    decreases p.len(),
{
    if p.len() == 0 {
        (Seq::empty(), Seq::empty())
    } else {
        let (acc, cur) = segment_state(p.drop_last());
        if p.last() == '/' {
            (if keeps_segment(cur) {
                acc.push(cur)
            } else {
                acc
            }, Seq::empty())
        } else {
            (acc, cur.push(p.last()))
        }
    }
}

/// The components of a path after its root, as `Path::components` gives
/// them: separators and `.` segments fall away.
pub open spec fn segments(p: Seq<char>) -> Seq<Seq<char>> {
    let (acc, cur) = segment_state(p);
    if keeps_segment(cur) {
        acc.push(cur)
    } else {
        acc
    }
}

/// The depth below the start that walking `segs` ends at, or `None` where
/// a `..` would climb above the start.
pub open spec fn walk_depth(segs: Seq<Seq<char>>) -> Option<nat>
    decreases segs.len(),
{
    if segs.len() == 0 {
        Some(0)
    } else {
        match walk_depth(segs.drop_last()) {
            None => None,
            Some(d) => if segs.last() == ".."@ {
                if d > 0 {
                    Some((d - 1) as nat)
                } else {
                    None
                }
            } else {
                Some(d + 1)
            },
        }
    }
}

/// Segments joined by separators.
pub open spec fn join_segments(segs: Seq<Seq<char>>) -> Seq<char>
    decreases segs.len(),
{
    if segs.len() == 0 {
        Seq::empty()
    } else if segs.len() == 1 {
        segs[0]
    } else {
        join_segments(segs.drop_last()) + "/"@ + segs.last()
    }
}

/// The part of an absolute `input` below `base` (`Path::strip_prefix`):
/// defined when `base` is absolute and its components begin those of
/// `input`.
pub open spec fn strip_spec(input: Seq<char>, base: Seq<char>) -> Option<Seq<Seq<char>>> {
    let b = segments(base);
    let i = segments(input);
    if is_absolute_spec(base) && b.len() <= i.len() && i.take(b.len() as int) == b {
        Some(i.skip(b.len() as int))
    } else {
        None
    }
}

/// The message of a working directory that could not be canonicalized.
pub open spec fn canon_message(base: Seq<char>, e: Seq<char>) -> Seq<char> {
    "working directory '"@ + base + "' cannot be canonicalized: "@ + e
}

/// The message of an absolute path outside the working directory.
pub open spec fn outside_message(input: Seq<char>, base: Seq<char>) -> Seq<char> {
    "path '"@ + input + "' is outside the working directory '"@ + base + "'"@
}

/// The message of a path that climbs out of the working directory.
pub open spec fn escape_message(input: Seq<char>, base: Seq<char>) -> Seq<char> {
    "path '"@ + input + "' escapes the working directory '"@ + base + "'"@
}

/// Where a tool argument `p` takes a file operation, given the working
/// directory `wd` and the outcome of canonicalizing it: without a working
/// directory, wherever the path leads; with one, an absolute path must lie
/// below the canonical directory and no `..` may climb above it.
pub open spec fn resolve_for_io_spec(
    wd: Option<Seq<char>>,
    p: Seq<char>,
    canonical: Result<Seq<char>, Seq<char>>,
) -> Result<(Seq<char>, Option<(Seq<char>, Seq<char>)>), Seq<char>> {
    match wd {
        None => Ok((resolve_path_spec(wd, p), None)),
        Some(base) => match canonical {
            Err(e) => Err(canon_message(base, e)),
            Ok(canon) => {
                let rel_segs = if is_absolute_spec(p) {
                    strip_spec(p, canon)
                } else {
                    Some(segments(p))
                };
                match rel_segs {
                    None => Err(outside_message(p, canon)),
                    Some(segs) => if walk_depth(segs) is None {
                        Err(escape_message(p, canon))
                    } else {
                        let relative = if is_absolute_spec(p) {
                            join_segments(segs)
                        } else {
                            p
                        };
                        Ok((join_spec(canon, relative), Some((canon, relative))))
                    },
                }
            },
        },
    }
}

/// Whether `p` is an absolute path.
pub fn is_absolute(p: &str) -> (r: bool)
    ensures
        r == is_absolute_spec(p@),
{
    let v = chars_of(p);
    v.len() > 0 && v[0] == '/'
}

/// `base` joined with `p`, by the rules of `Path::join`.
pub fn join_path(base: &str, p: &str) -> (r: String)
    ensures
        r@ == join_spec(base@, p@),
{
    if is_absolute(p) {
        return crate::text::copy_str(p);
    }
    let b = chars_of(base);
    let mut r = crate::text::copy_str(base);
    if b.len() > 0 && b[b.len() - 1] != '/' {
        push_char(&mut r, '/');
        assert(r@ =~= base@ + "/"@) by {
            reveal_strlit("/");
        }
    }
    push_str(&mut r, p);
    r
}

/// The components of a path after its root.
pub fn path_segments(p: &str) -> (r: Vec<Vec<char>>)
    ensures
        r@.map_values(|s: Vec<char>| s@) == segments(p@),
{
    let v = chars_of(p);
    let mut acc: Vec<Vec<char>> = Vec::new();
    let mut cur: Vec<char> = Vec::new();
    for i in 0..v.len()
        invariant
            v@ == p@,
            (acc@.map_values(|s: Vec<char>| s@), cur@) == segment_state(v@.take(i as int)),
    {
        proof {
            assert(v@.take(i + 1).drop_last() =~= v@.take(i as int));
            assert(v@.take(i + 1).last() == v@[i as int]);
        }
        if v[i] == '/' {
            if keeps(&cur) {
                let ghost before = acc@;
                let ghost c = cur@;
                acc.push(cur);
                assert(acc@.map_values(|s: Vec<char>| s@) =~= before.map_values(|s: Vec<char>| s@).push(c));
            }
            cur = Vec::new();
        } else {
            cur.push(v[i]);
        }
    }
    assert(v@.take(v@.len() as int) =~= v@);
    if keeps(&cur) {
        let ghost before = acc@;
        let ghost c = cur@;
        acc.push(cur);
        assert(acc@.map_values(|s: Vec<char>| s@) =~= before.map_values(|s: Vec<char>| s@).push(c));
    }
    acc
}

/// Whether a segment names something.
fn keeps(seg: &Vec<char>) -> (r: bool)
    ensures
        r == keeps_segment(seg@),
{
    proof {
        reveal_strlit(".");
    }
    if seg.len() == 0 {
        return false;
    }
    if seg.len() == 1 && seg[0] == '.' {
        assert(seg@ =~= "."@);
        return false;
    }
    assert(seg@ != "."@ ) by {
        if seg@.len() == 1 {
            assert(seg@[0] != "."@[0]);
        }
    }
    true
}

/// Whether a segment is `..`.
fn is_parent(seg: &Vec<char>) -> (r: bool)
    ensures
        r == (seg@ == ".."@),
{
    proof {
        reveal_strlit("..");
    }
    if seg.len() == 2 && seg[0] == '.' && seg[1] == '.' {
        assert(seg@ =~= ".."@);
        true
    } else {
        assert(seg@ != ".."@) by {
            if seg@.len() == 2 {
                assert(seg@[0] != '.' || seg@[1] != '.');
            }
        }
        false
    }
}

/// Whether walking `segs` stays at or below the start.
fn stays_inside(segs: &Vec<Vec<char>>) -> (r: bool)
    ensures
        r == (walk_depth(segs@.map_values(|s: Vec<char>| s@)) is Some),
{
    let ghost sv = segs@.map_values(|s: Vec<char>| s@);
    let mut depth: usize = 0;
    for i in 0..segs.len()
        invariant
            sv == segs@.map_values(|s: Vec<char>| s@),
            depth <= i,
            walk_depth(sv.take(i as int)) == Some(depth as nat),
    {
        proof {
            assert(sv.take(i + 1).drop_last() =~= sv.take(i as int));
            assert(sv.take(i + 1).last() == segs@[i as int]@);
        }
        if is_parent(&segs[i]) {
            if depth > 0 {
                depth -= 1;
            } else {
                proof {
                    lemma_walk_none_prefix(sv, i + 1);
                }
                return false;
            }
        } else {
            depth += 1;
        }
    }
    assert(sv.take(sv.len() as int) =~= sv);
    true
}

proof fn lemma_walk_none_prefix(s: Seq<Seq<char>>, k: int)
    requires
        0 <= k <= s.len(),
        walk_depth(s.take(k)) is None,
    ensures
        walk_depth(s) is None,
    decreases s.len() - k,
{
    if k < s.len() {
        assert(s.take(k + 1).drop_last() =~= s.take(k));
        lemma_walk_none_prefix(s, k + 1);
    } else {
        assert(s.take(k) =~= s);
    }
}

/// Segments joined by separators.
fn join_segs(segs: &Vec<Vec<char>>, from: usize) -> (r: String)
    requires
        from <= segs@.len(),
    ensures
        r@ == join_segments(segs@.map_values(|s: Vec<char>| s@).skip(from as int)),
{
    let ghost sv = segs@.map_values(|s: Vec<char>| s@).skip(from as int);
    let mut r = String::new();
    let mut i = from;
    while i < segs.len()
        invariant
            from <= i <= segs@.len(),
            sv == segs@.map_values(|s: Vec<char>| s@).skip(from as int),
            r@ == join_segments(sv.take(i - from)),
        decreases segs.len() - i,
    {
        proof {
            assert(sv.take(i - from + 1).drop_last() =~= sv.take(i - from));
            assert(sv.take(i - from + 1).last() == segs@[i as int]@);
            if i == from {
                assert(sv.take(1)[0] == segs@[i as int]@);
            }
        }
        if i > from {
            push_str(&mut r, "/");
        }
        let s = string_from_chars(&segs[i]);
        push_str(&mut r, s.as_str());
        i += 1;
    }
    assert(sv.take(segs@.len() - from) =~= sv);
    r
}

/// Whether `b` begins `a`, element by element.
pub fn segs_start_with(a: &Vec<Vec<char>>, b: &Vec<Vec<char>>) -> (r: bool)
    ensures
        r == (b@.len() <= a@.len() && a@.map_values(|s: Vec<char>| s@).take(b@.len() as int)
            == b@.map_values(|s: Vec<char>| s@)),
{
    if b.len() > a.len() {
        return false;
    }
    for i in 0..b.len()
        invariant
            b@.len() <= a@.len(),
            forall|j: int| 0 <= j < i ==> (#[trigger] a@[j])@ == b@[j]@,
    {
        if !crate::text::chars_equal(&a[i], &b[i]) {
            assert(a@.map_values(|s: Vec<char>| s@).take(b@.len() as int)[i as int] != b@.map_values(
                |s: Vec<char>| s@,
            )[i as int]);
            return false;
        }
    }
    assert(a@.map_values(|s: Vec<char>| s@).take(b@.len() as int) =~= b@.map_values(
        |s: Vec<char>| s@,
    ));
    true
}

impl FileConfig {
    /// The path that a tool argument names: an absolute path as it is, a
    /// relative one below the working directory when one is set.
    pub fn resolve_path(&self, p: &str) -> (r: String)
        ensures
            r@ == resolve_path_spec(
                match self.working_directory {
                    Some(w) => Some(w@),
                    None => None,
                },
                p@,
            ),
    {
        if is_absolute(p) {
            return crate::text::copy_str(p);
        }
        match &self.working_directory {
            Some(base) => join_path(base.as_str(), p),
            None => crate::text::copy_str(p),
        }
    }

    /// Where a tool argument `p` takes a file operation. `canonical` is the
    /// outcome of canonicalizing the working directory (its canonical path,
    /// or the error's text), which the caller reads from the file system; it
    /// is not looked at when no working directory is set. With a working
    /// directory, an absolute path must lie below the canonical directory
    /// and no `..` may climb above it.
    pub fn resolve_for_io(&self, p: &str, canonical: Result<String, String>) -> (r: Result<
        ResolvedFile,
        String,
    >)
        ensures
            match resolve_for_io_spec(
                match self.working_directory {
                    Some(w) => Some(w@),
                    None => None,
                },
                p@,
                match canonical {
                    Ok(c) => Ok(c@),
                    Err(e) => Err(e@),
                },
            ) {
                Err(m) => r is Err && r->Err_0@ == m,
                Ok((shown, None)) => r matches Ok(ResolvedFile::Ambient(x)) && x@ == shown,
                Ok((shown, Some((base, rel)))) => r matches Ok(
                    ResolvedFile::Sandboxed { base: b, relative: l, display: d },
                ) && b@ == base && l@ == rel && d@ == shown,
            },
    {
        let base = match &self.working_directory {
            None => {
                return Ok(ResolvedFile::Ambient(self.resolve_path(p)));
            },
            Some(b) => b,
        };
        let canon = match canonical {
            Err(e) => {
                let mut m = String::new();
                push_str(&mut m, "working directory '");
                push_str(&mut m, base.as_str());
                push_str(&mut m, "' cannot be canonicalized: ");
                push_str(&mut m, e.as_str());
                return Err(m);
            },
            Ok(c) => c,
        };
        let input_segs = path_segments(p);
        let absolute = is_absolute(p);
        let (segs, from) = if absolute {
            let base_segs = path_segments(canon.as_str());
            if !is_absolute(canon.as_str()) || !segs_start_with(&input_segs, &base_segs) {
                let mut m = String::new();
                push_str(&mut m, "path '");
                push_str(&mut m, p);
                push_str(&mut m, "' is outside the working directory '");
                push_str(&mut m, canon.as_str());
                push_str(&mut m, "'");
                return Err(m);
            }
            (input_segs, base_segs.len())
        } else {
            (input_segs, 0)
        };
        let ghost rel_segs = segs@.map_values(|s: Vec<char>| s@).skip(from as int);
        proof {
            if !absolute {
                assert(rel_segs =~= segments(p@));
            }
        }
        let mut tail: Vec<Vec<char>> = Vec::new();
        let mut k = from;
        while k < segs.len()
            invariant
                from <= k <= segs@.len(),
                tail@.len() == k - from,
                forall|j: int| 0 <= j < tail@.len() ==> (#[trigger] tail@[j])@ == segs@[from + j]@,
            decreases segs.len() - k,
        {
            tail.push(segs[k].clone());
            k += 1;
        }
        assert(tail@.map_values(|s: Vec<char>| s@) =~= rel_segs);
        if !stays_inside(&tail) {
            let mut m = String::new();
            push_str(&mut m, "path '");
            push_str(&mut m, p);
            push_str(&mut m, "' escapes the working directory '");
            push_str(&mut m, canon.as_str());
            push_str(&mut m, "'");
            return Err(m);
        }
        let relative = if absolute {
            join_segs(&segs, from)
        } else {
            crate::text::copy_str(p)
        };
        let display = join_path(canon.as_str(), relative.as_str());
        Ok(ResolvedFile::Sandboxed { base: canon, relative, display })
    }
}


// ---------------------------------------------------------------------------
// Lines
// ---------------------------------------------------------------------------

/// A line without the carriage return of its `\r\n` ending.
pub open spec fn strip_cr(line: Seq<char>) -> Seq<char> {
    if line.len() > 0 && line.last() == '\r' {
        line.drop_last()
    } else {
        line
    }
}

/// The lines found so far and the line being read, after reading `s`.
pub open spec fn line_state(s: Seq<char>) -> (Seq<Seq<char>>, Seq<char>)
    decreases s.len(),
{
    if s.len() == 0 {
        (Seq::empty(), Seq::empty())
    } else {
        let (acc, cur) = line_state(s.drop_last());
        if s.last() == '\n' {
            (acc.push(strip_cr(cur)), Seq::empty())
        } else {
            (acc, cur.push(s.last()))
        }
    }
}

/// The lines of a text (`str::lines`): split at each `\n`, a `\r` before it
/// dropped, and no line after a final `\n`.
pub open spec fn lines_of(s: Seq<char>) -> Seq<Seq<char>> {
    let (acc, cur) = line_state(s);
    if cur.len() > 0 {
        acc.push(cur)
    } else {
        acc
    }
}

/// Lines joined by `\n`.
pub open spec fn join_lines_spec(ls: Seq<Seq<char>>) -> Seq<char>
    decreases ls.len(),
{
    if ls.len() == 0 {
        Seq::empty()
    } else if ls.len() == 1 {
        ls[0]
    } else {
        join_lines_spec(ls.drop_last()) + "\n"@ + ls.last()
    }
}

/// The lines numbered `start` to `end`, counting from one, that the text
/// has, joined by `\n`.
pub open spec fn select_lines_spec(s: Seq<char>, start: int, end: int) -> Seq<char> {
    let ls = lines_of(s);
    let lo = if start - 1 < 0 { 0 } else if start - 1 > ls.len() { ls.len() as int } else { start - 1 };
    let hi = if end < lo { lo } else if end > ls.len() { ls.len() as int } else { end };
    join_lines_spec(ls.subrange(lo, hi))
}

/// The lines of a text.
pub fn text_lines(s: &str) -> (r: Vec<Vec<char>>)
    ensures
        r@.map_values(|l: Vec<char>| l@) == lines_of(s@),
{
    let v = chars_of(s);
    let mut acc: Vec<Vec<char>> = Vec::new();
    let mut cur: Vec<char> = Vec::new();
    for i in 0..v.len()
        invariant
            v@ == s@,
            (acc@.map_values(|l: Vec<char>| l@), cur@) == line_state(v@.take(i as int)),
    {
        proof {
            assert(v@.take(i + 1).drop_last() =~= v@.take(i as int));
            assert(v@.take(i + 1).last() == v@[i as int]);
        }
        if v[i] == '\n' {
            let ghost c = cur@;
            if cur.len() > 0 && cur[cur.len() - 1] == '\r' {
                cur.pop();
            }
            let ghost before = acc@;
            let ghost c2 = cur@;
            assert(c2 == strip_cr(c));
            acc.push(cur);
            assert(acc@.map_values(|l: Vec<char>| l@) =~= before.map_values(|l: Vec<char>| l@).push(c2));
            cur = Vec::new();
        } else {
            cur.push(v[i]);
        }
    }
    assert(v@.take(v@.len() as int) =~= v@);
    if cur.len() > 0 {
        let ghost before = acc@;
        let ghost c = cur@;
        acc.push(cur);
        assert(acc@.map_values(|l: Vec<char>| l@) =~= before.map_values(|l: Vec<char>| l@).push(c));
    }
    acc
}

/// The lines numbered `start` to `end` (from one) of a text, joined by
/// `\n`; lines past the end of the text are not there to select.
pub fn select_lines(content: &str, start: u64, end: u64) -> (r: String)
    ensures
        r@ == select_lines_spec(content@, start as int, end as int),
{
    let lines = text_lines(content);
    let ghost ls = lines@.map_values(|l: Vec<char>| l@);
    let n = lines.len();
    let lo: usize = if start == 0 {
        0
    } else if start - 1 > n as u64 {
        n
    } else {
        (start - 1) as usize
    };
    let hi: usize = if end < lo as u64 {
        lo
    } else if end > n as u64 {
        n
    } else {
        end as usize
    };
    let mut r = String::new();
    let mut i = lo;
    while i < hi
        invariant
            lo <= i <= hi <= n,
            n == lines@.len(),
            ls == lines@.map_values(|l: Vec<char>| l@),
            r@ == join_lines_spec(ls.subrange(lo as int, i as int)),
        decreases hi - i,
    {
        proof {
            assert(ls.subrange(lo as int, i + 1).drop_last() =~= ls.subrange(lo as int, i as int));
            assert(ls.subrange(lo as int, i + 1).last() == lines@[i as int]@);
            if i == lo {
                assert(ls.subrange(lo as int, i + 1)[0] == lines@[i as int]@);
            }
        }
        if i > lo {
            push_str(&mut r, "\n");
        }
        let line = string_from_chars(&lines[i]);
        push_str(&mut r, line.as_str());
        i += 1;
    }
    r
}

/// Whether both ends of a line range are given and form a range.
pub open spec fn line_range_spec(start: Option<u64>, end: Option<u64>) -> Result<Option<(u64, u64)>, ToolErrorText> {
    match (start, end) {
        (Some(s), Some(e)) => if s == 0 || e < s {
            Err(ToolErrorText::Invalid(
                "Invalid line range: start_line="@ + crate::text::decimal_string(s as nat) + ", end_line="@
                    + crate::text::decimal_string(e as nat)
                    + " (both must be >= 1 and end_line >= start_line)"@,
            ))
        } else {
            Ok(Some((s, e)))
        },
        (Some(_), None) | (None, Some(_)) => Err(ToolErrorText::Invalid(
            "start_line and end_line must be provided together"@,
        )),
        (None, None) => Ok(None),
    }
}

/// A tool's refusal, by kind and text.
pub enum ToolErrorText {
    Invalid(Seq<char>),
    Execution(Seq<char>),
}

/// The content of a tool's refusal.
pub open spec fn error_text(e: ToolError) -> ToolErrorText {
    match e {
        ToolError::InvalidParameters(m) => ToolErrorText::Invalid(m@),
        ToolError::ExecutionError(m) => ToolErrorText::Execution(m@),
    }
}

/// Checks the optional `start_line` and `end_line` of a read: both or
/// neither, and when both, a range that starts at one or later.
pub fn line_range(start: Option<u64>, end: Option<u64>) -> (r: Result<Option<(u64, u64)>, ToolError>)
    ensures
        match r {
            Ok(x) => line_range_spec(start, end) == Ok::<Option<(u64, u64)>, ToolErrorText>(x),
            Err(e) => line_range_spec(start, end) == Err::<Option<(u64, u64)>, ToolErrorText>(error_text(e)),
        },
{
    match (start, end) {
        (Some(s), Some(e)) => {
            if s == 0 || e < s {
                let mut m = String::new();
                push_str(&mut m, "Invalid line range: start_line=");
                push_decimal(&mut m, s);
                push_str(&mut m, ", end_line=");
                push_decimal(&mut m, e);
                push_str(&mut m, " (both must be >= 1 and end_line >= start_line)");
                Err(ToolError::InvalidParameters(m))
            } else {
                Ok(Some((s, e)))
            }
        },
        (None, None) => Ok(None),
        _ => {
            let mut m = String::new();
            push_str(&mut m, "start_line and end_line must be provided together");
            Err(ToolError::InvalidParameters(m))
        },
    }
}

// ---------------------------------------------------------------------------
// Replacing text
// ---------------------------------------------------------------------------

/// The step after a match: past the pattern, or one character on for an
/// empty pattern (which matches at every position).
pub open spec fn match_step(p: Seq<char>) -> int {
    if p.len() == 0 { 1 } else { p.len() as int }
}

/// How many times `p` occurs in `t`, counting from the left without
/// overlaps (`str::matches(..).count()`).
pub open spec fn match_count(t: Seq<char>, p: Seq<char>) -> nat
    decreases t.len(),
{
    let k = crate::text::find_sub(t, p);
    if k < 0 {
        0
    } else if k + match_step(p) > t.len() {
        1
    } else {
        1 + match_count(t.skip(k + match_step(p)), p)
    }
}

/// `t` with every occurrence of `p`, counted as [`match_count`] does,
/// replaced by `r` (`str::replace`).
pub open spec fn replace_all_spec(t: Seq<char>, p: Seq<char>, r: Seq<char>) -> Seq<char>
    decreases t.len(),
{
    let k = crate::text::find_sub(t, p);
    if k < 0 {
        t
    } else if k + match_step(p) > t.len() {
        t.take(k) + r
    } else {
        t.take(k) + r + t.subrange(k + p.len(), k + match_step(p)) + replace_all_spec(
            t.skip(k + match_step(p)),
            p,
            r,
        )
    }
}

/// `t` with its first occurrence of `p` replaced by `r`.
pub open spec fn replace_first_spec(t: Seq<char>, p: Seq<char>, r: Seq<char>) -> Seq<char> {
    let k = crate::text::find_sub(t, p);
    if k < 0 {
        t
    } else {
        t.take(k) + r + t.skip(k + p.len())
    }
}

proof fn lemma_find_sub_skip(s: Seq<char>, p: Seq<char>, from: int, i: int)
    requires
        0 <= from <= i,
        from <= s.len(),
        forall|j: int| from <= j < i ==> !crate::text::matches_at(s, p, j),
        crate::text::matches_at(s, p, i) || i + p.len() > s.len(),
    ensures
        crate::text::find_sub(s.skip(from), p) == (if crate::text::matches_at(s, p, i) {
            i - from
        } else {
            -1
        }),
{
    let t = s.skip(from);
    assert forall|j: int| 0 <= j < i - from implies !crate::text::matches_at(t, p, j) by {
        if j + p.len() <= t.len() {
            assert(t.subrange(j, j + p.len()) =~= s.subrange(from + j, from + j + p.len()));
        }
        assert(!crate::text::matches_at(s, p, from + j));
    }
    if crate::text::matches_at(s, p, i) {
        assert(t.subrange(i - from, i - from + p.len()) =~= s.subrange(i, i + p.len()));
    }
    crate::text::lemma_find_sub(t, p, i - from);
}

/// The next match at or after `from`, as the specs see it from `from` on.
pub(crate) fn next_match(v: &Vec<char>, p: &Vec<char>, from: usize) -> (r: Option<usize>)
    requires
        from <= v@.len(),
    ensures
        match r {
            Some(i) => from <= i && crate::text::find_sub(v@.skip(from as int), p@) == i - from
                && crate::text::matches_at(v@, p@, i as int),
            None => crate::text::find_sub(v@.skip(from as int), p@) < 0,
        },
{
    let r = crate::text::find_sub_from(v, p, from);
    proof {
        match r {
            Some(i) => lemma_find_sub_skip(v@, p@, from as int, i as int),
            None => {
                let i: int = if v@.len() + 1 >= p@.len() + from { v@.len() - p@.len() + 1 } else { from as int };
                lemma_find_sub_skip(v@, p@, from as int, i);
            },
        }
    }
    r
}

/// How many times `pattern` occurs in `content`, without overlaps.
pub fn count_matches(content: &str, pattern: &str) -> (r: usize)
    requires
        content@.len() < usize::MAX,
    ensures
        r == match_count(content@, pattern@),
{
    let v = chars_of(content);
    let p = chars_of(pattern);
    let mut from: usize = 0;
    let mut count: usize = 0;
    assert(v@.skip(0) =~= v@);
    loop
        invariant
            v@ == content@,
            p@ == pattern@,
            v@.len() < usize::MAX,
            from <= v@.len(),
            count <= from,
            match_count(content@, pattern@) == count + match_count(v@.skip(from as int), p@),
        decreases v@.len() - from,
    {
        match next_match(&v, &p, from) {
            None => {
                return count;
            },
            Some(i) => {
                let step: usize = if p.len() == 0 { 1 } else { p.len() };
                let ghost t = v@.skip(from as int);
                if step > v.len() - i {
                    return count + 1;
                }
                proof {
                    assert(t.skip(i - from + step) =~= v@.skip(i + step));
                }
                count += 1;
                from = i + step;
            },
        }
    }
}

/// `content` with every occurrence of `pattern` replaced by `replacement`.
pub fn replace_all(content: &str, pattern: &str, replacement: &str) -> (r: String)
    ensures
        r@ == replace_all_spec(content@, pattern@, replacement@),
{
    let v = chars_of(content);
    let p = chars_of(pattern);
    let mut out = String::new();
    let mut from: usize = 0;
    assert(v@.skip(0) =~= v@);
    loop
        invariant
            v@ == content@,
            p@ == pattern@,
            from <= v@.len(),
            replace_all_spec(content@, pattern@, replacement@) == out@ + replace_all_spec(
                v@.skip(from as int),
                p@,
                replacement@,
            ),
        decreases v@.len() - from,
    {
        let ghost t = v@.skip(from as int);
        match next_match(&v, &p, from) {
            None => {
                let rest = crate::text::string_from_range(&v, from, v.len());
                assert(rest@ =~= t);
                push_str(&mut out, rest.as_str());
                return out;
            },
            Some(i) => {
                let step: usize = if p.len() == 0 { 1 } else { p.len() };
                let k: usize = i - from;
                let head = crate::text::string_from_range(&v, from, i);
                assert(head@ =~= t.take(k as int));
                push_str(&mut out, head.as_str());
                push_str(&mut out, replacement);
                if step > v.len() - i {
                    return out;
                }
                let mid = crate::text::string_from_range(&v, i + p.len(), i + step);
                assert(mid@ =~= t.subrange(k + p@.len(), k + step));
                push_str(&mut out, mid.as_str());
                proof {
                    assert(t.skip(k + step) =~= v@.skip(i + step));
                }
                from = i + step;
            },
        }
    }
}

/// `content` with its first occurrence of `pattern` replaced.
pub fn replace_first(content: &str, pattern: &str, replacement: &str) -> (r: String)
    ensures
        r@ == replace_first_spec(content@, pattern@, replacement@),
{
    let v = chars_of(content);
    let p = chars_of(pattern);
    match crate::text::find_sub_exec(&v, &p) {
        None => string_from_chars(&v),
        Some(i) => {
            assert(crate::text::matches_at(v@, p@, i as int));
            assert(i + p@.len() <= v@.len());
            let n = v.len();
            let plen = p.len();
            let end = i + plen;
            let mut out = crate::text::string_from_range(&v, 0, i);
            push_str(&mut out, replacement);
            let rest = crate::text::string_from_range(&v, end, v.len());
            push_str(&mut out, rest.as_str());
            assert(out@ =~= v@.take(i as int) + replacement@ + v@.skip(i + p@.len()));
            out
        },
    }
}

/// The refusal of an edit whose two strings are the same.
pub fn check_edit_strings(old_string: &str, new_string: &str) -> (r: Result<(), ToolError>)
    ensures
        r is Ok <==> old_string@ != new_string@,
        r is Err ==> error_text(r->Err_0) == ToolErrorText::Invalid("old_string and new_string must differ"@),
{
    if crate::text::str_equal(old_string, new_string) {
        let mut m = String::new();
        push_str(&mut m, "old_string and new_string must differ");
        Err(ToolError::InvalidParameters(m))
    } else {
        Ok(())
    }
}

/// What an edit of a file's `content` comes to: refused when `old_string`
/// does not occur, or occurs more than once without `replace_all`;
/// otherwise the new content and the number of replacements.
pub open spec fn edit_spec(content: Seq<char>, old_string: Seq<char>, new_string: Seq<char>, replace_all: bool, path: Seq<char>) -> Result<(Seq<char>, nat), ToolErrorText> {
    let count = match_count(content, old_string);
    if count == 0 {
        Err(ToolErrorText::Execution(
            "old_string was not found in "@ + path
                + ". Make sure it matches exactly, including whitespace and indentation."@,
        ))
    } else if count > 1 && !replace_all {
        Err(ToolErrorText::Execution(
            "old_string occurs "@ + crate::text::decimal_string(count) + " times in "@ + path
                + ". Provide more context to make it unique, or set replace_all to true."@,
        ))
    } else if replace_all {
        Ok((replace_all_spec(content, old_string, new_string), count))
    } else {
        Ok((replace_first_spec(content, old_string, new_string), 1))
    }
}

/// Edits a file's `content` (read by the caller from the file shown as
/// `path`): gives the new content to write and the number of replacements.
pub fn apply_edit(content: &str, old_string: &str, new_string: &str, replace_all: bool, path: &str) -> (r: Result<(String, usize), ToolError>)
    requires
        content@.len() < usize::MAX,
    ensures
        match r {
            Ok((c, n)) => edit_spec(content@, old_string@, new_string@, replace_all, path@) == Ok::<(Seq<char>, nat), ToolErrorText>((c@, n as nat)),
            Err(e) => edit_spec(content@, old_string@, new_string@, replace_all, path@) == Err::<(Seq<char>, nat), ToolErrorText>(error_text(e)),
        },
{
    let count = count_matches(content, old_string);
    if count == 0 {
        let mut m = String::new();
        push_str(&mut m, "old_string was not found in ");
        push_str(&mut m, path);
        push_str(&mut m, ". Make sure it matches exactly, including whitespace and indentation.");
        return Err(ToolError::ExecutionError(m));
    }
    if count > 1 && !replace_all {
        let mut m = String::new();
        push_str(&mut m, "old_string occurs ");
        push_decimal(&mut m, count as u64);
        push_str(&mut m, " times in ");
        push_str(&mut m, path);
        push_str(&mut m, ". Provide more context to make it unique, or set replace_all to true.");
        return Err(ToolError::ExecutionError(m));
    }
    if replace_all {
        Ok((crate::file::replace_all(content, old_string, new_string), count))
    } else {
        Ok((replace_first(content, old_string, new_string), 1))
    }
}


/// With exactly one occurrence of the pattern, replacing the first and
/// replacing every occurrence give the same text; with none, the text is
/// left as it is.
pub proof fn law_single_match_replacements_agree(t: Seq<char>, p: Seq<char>, r: Seq<char>)
    ensures
        match_count(t, p) == 1 ==> replace_all_spec(t, p, r) == replace_first_spec(t, p, r),
        match_count(t, p) == 0 ==> replace_all_spec(t, p, r) == t && replace_first_spec(t, p, r) == t,
{
    let k = crate::text::find_sub(t, p);
    crate::text::lemma_find_sub_match(t, p);
    if k >= 0 {
        if k + match_step(p) <= t.len() && match_count(t, p) == 1 {
            let rest = t.skip(k + match_step(p));
            assert(match_count(rest, p) == 0);
            assert(crate::text::find_sub(rest, p) < 0);
            assert(replace_all_spec(rest, p, r) == rest);
            assert(t.subrange(k + p.len(), k + match_step(p)) + rest =~= t.skip(k + p.len()));
            assert(replace_all_spec(t, p, r) =~= t.take(k) + r + t.skip(k + p.len()));
        } else if k + match_step(p) > t.len() {
            assert(t.skip(k + p.len()) =~= Seq::<char>::empty());
            assert(replace_first_spec(t, p, r) =~= t.take(k) + r);
        }
    }
}

/// With a working directory set, a path that resolves is taken below the
/// canonical directory, and walking what is left of it never climbs above
/// that directory: the file tools cannot reach outside it by `..`.
pub proof fn law_sandbox_never_climbs(wd: Seq<char>, p: Seq<char>, canon: Seq<char>)
    requires
        resolve_for_io_spec(Some(wd), p, Ok(canon)) is Ok,
    ensures
        match resolve_for_io_spec(Some(wd), p, Ok(canon)) {
            Ok((shown, Some((base, rel)))) => {
                &&& base == canon
                &&& shown == join_spec(canon, rel)
                &&& is_absolute_spec(p) ==> (strip_spec(p, canon) matches Some(s) && walk_depth(s) is Some)
                &&& !is_absolute_spec(p) ==> rel == p && walk_depth(segments(p)) is Some
            },
            _ => false,
        },
{
}


// ---------------------------------------------------------------------------
// The tools
// ---------------------------------------------------------------------------

/// The `read_file` tool.
#[derive(Debug, Clone)]
pub struct ReadFileTool {
    pub config: FileConfig,
}

/// The `write_file` tool.
#[derive(Debug, Clone)]
pub struct WriteFileTool {
    pub config: FileConfig,
}

/// The `edit_file` tool.
#[derive(Debug, Clone)]
pub struct EditFileTool {
    pub config: FileConfig,
}

/// A string parameter that a tool requires.
pub open spec fn required_str_spec(params: serde_json::Value, key: Seq<char>) -> Result<Seq<char>, ToolErrorText> {
    match json_str_at(params, key) {
        Some(s) => Ok(s),
        None => Err(ToolErrorText::Invalid("Missing '"@ + key + "' parameter"@)),
    }
}

/// Reads a string parameter that a tool requires.
pub fn required_str(params: &serde_json::Value, key: &str) -> (r: Result<String, ToolError>)
    ensures
        match r {
            Ok(s) => required_str_spec(*params, key@) == Ok::<Seq<char>, ToolErrorText>(s@),
            Err(e) => required_str_spec(*params, key@) == Err::<Seq<char>, ToolErrorText>(error_text(e)),
        },
{
    match json_str_field(params, key) {
        Some(s) => Ok(s),
        None => {
            let mut m = String::new();
            push_str(&mut m, "Missing '");
            push_str(&mut m, key);
            push_str(&mut m, "' parameter");
            Err(ToolError::InvalidParameters(m))
        },
    }
}

/// Where the `path` parameter takes a file tool: the path must be given,
/// and a refused resolution is an invalid parameter.
pub fn parse_path(params: &serde_json::Value, config: &FileConfig, canonical: Result<String, String>) -> (r: Result<ResolvedFile, ToolError>)
    ensures
        match required_str_spec(*params, "path"@) {
            Err(e) => r is Err && error_text(r->Err_0) == e,
            Ok(p) => match resolve_for_io_spec(
                match config.working_directory {
                    Some(w) => Some(w@),
                    None => None,
                },
                p,
                match canonical {
                    Ok(c) => Ok(c@),
                    Err(e) => Err(e@),
                },
            ) {
                Err(m) => r is Err && error_text(r->Err_0) == ToolErrorText::Invalid(m),
                Ok((shown, _)) => r is Ok && r->Ok_0.display_path_spec() == shown,
            },
        },
{
    let raw = required_str(params, "path")?;
    match config.resolve_for_io(raw.as_str(), canonical) {
        Ok(f) => Ok(f),
        Err(m) => Err(ToolError::InvalidParameters(m)),
    }
}

impl ResolvedFile {
    /// The path to show for this file.
    pub open spec fn display_path_spec(&self) -> Seq<char> {
        match self {
            ResolvedFile::Ambient(p) => p@,
            ResolvedFile::Sandboxed { display, .. } => display@,
        }
    }
}

impl ReadFileTool {
    /// What a read returns of a file's `content`: all of it, or the lines
    /// that `start_line` and `end_line` (given together) select.
    pub fn view_content(params: &serde_json::Value, content: &str) -> (r: Result<String, ToolError>)
        ensures
            match line_range_spec(json_u64_at(*params, "start_line"@), json_u64_at(*params, "end_line"@)) {
                Err(e) => r is Err && error_text(r->Err_0) == e,
                Ok(None) => r is Ok && r->Ok_0@ == content@,
                Ok(Some((s, e))) => r is Ok && r->Ok_0@ == select_lines_spec(content@, s as int, e as int),
            },
    {
        let start = json_u64_field(params, "start_line");
        let end = json_u64_field(params, "end_line");
        match line_range(start, end)? {
            None => Ok(crate::text::copy_str(content)),
            Some((s, e)) => Ok(select_lines(content, s, e)),
        }
    }
}

impl WriteFileTool {
    /// The content that a write puts in the file; it must be given.
    pub fn content_param(params: &serde_json::Value) -> (r: Result<String, ToolError>)
        ensures
            match r {
                Ok(s) => required_str_spec(*params, "content"@) == Ok::<Seq<char>, ToolErrorText>(s@),
                Err(e) => required_str_spec(*params, "content"@) == Err::<Seq<char>, ToolErrorText>(error_text(e)),
            },
    {
        required_str(params, "content")
    }
}

/// What an edit asks for: the text to find and its replacement, which must
/// both be given and differ, and whether to replace every occurrence
/// (`false` unless given).
pub open spec fn edit_params_spec(params: serde_json::Value) -> Result<(Seq<char>, Seq<char>, bool), ToolErrorText> {
    match required_str_spec(params, "old_string"@) {
        Err(e) => Err(e),
        Ok(old) => match required_str_spec(params, "new_string"@) {
            Err(e) => Err(e),
            Ok(new) => if old == new {
                Err(ToolErrorText::Invalid("old_string and new_string must differ"@))
            } else {
                Ok((
                    old,
                    new,
                    match json_bool_at(params, "replace_all"@) {
                        Some(b) => b,
                        None => false,
                    },
                ))
            },
        },
    }
}

impl EditFileTool {
    /// Reads what an edit asks for.
    pub fn edit_params(params: &serde_json::Value) -> (r: Result<(String, String, bool), ToolError>)
        ensures
            match r {
                Ok((o, n, a)) => edit_params_spec(*params) == Ok::<(Seq<char>, Seq<char>, bool), ToolErrorText>((o@, n@, a)),
                Err(e) => edit_params_spec(*params) == Err::<(Seq<char>, Seq<char>, bool), ToolErrorText>(error_text(e)),
            },
    {
        let old_string = required_str(params, "old_string")?;
        let new_string = required_str(params, "new_string")?;
        check_edit_strings(old_string.as_str(), new_string.as_str())?;
        let replace_all = match json_bool_field(params, "replace_all") {
            Some(b) => b,
            None => false,
        };
        Ok((old_string, new_string, replace_all))
    }
}

/// The `set_title` tool of a thread: it renames the thread that owns it.
#[derive(Debug, Clone, Copy)]
pub struct SetTitleTool {
    pub thread_id: u64,
}

/// The title that a `set_title` call asks for: the `title` parameter,
/// trimmed, which must then be non-empty.
pub open spec fn title_param_spec(params: serde_json::Value) -> Result<Seq<char>, ToolErrorText> {
    match required_str_spec(params, "title"@) {
        Err(t) => Err(t),
        Ok(raw) => if trim(raw).len() == 0 {
            Err(ToolErrorText::Invalid("title must be a non-empty, non-whitespace string"@))
        } else {
            Ok(trim(raw))
        },
    }
}

impl SetTitleTool {
    /// Reads the new title of the thread.
    pub fn title_param(params: &serde_json::Value) -> (r: Result<String, ToolError>)
        ensures
            match r {
                Ok(t) => title_param_spec(*params) == Ok::<Seq<char>, ToolErrorText>(t@),
                Err(e) => title_param_spec(*params) == Err::<Seq<char>, ToolErrorText>(error_text(e)),
            },
    {
        proof {
            reveal_strlit("title");
        }
        let raw = required_str(params, "title")?;
        let title = trim_string(raw.as_str());
        if title.as_str().is_empty() {
            let mut m = String::new();
            push_str(&mut m, "title must be a non-empty, non-whitespace string");
            return Err(ToolError::InvalidParameters(m));
        }
        Ok(title)
    }
}

} // verus!
