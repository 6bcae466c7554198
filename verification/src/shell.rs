//! The shell tools' logic: which program runs commands, the bounded buffer
//! of a spawned shell's unread output, and the texts the tools report.
//! Running processes and piping their streams is the caller's part.
use std::collections::{HashMap, VecDeque};
use vstd::prelude::*;

use crate::message::{json_u64_field, json_u64_at, ToolError, ToolErrorView};
use crate::text::{push_decimal, push_signed, push_str, signed_decimal_string};

verus! {

broadcast use vstd::string::group_string_axioms;

/// The most bytes of unread output kept for one spawned shell.
pub const MAX_BUFFERED_OUTPUT_BYTES: usize = 1_048_576;

/// The most lines of unread output kept for one spawned shell.
pub const MAX_BUFFERED_OUTPUT_LINES: usize = 10_000;

/// The most finished shells remembered.
pub const MAX_COMPLETED_SHELLS: usize = 64;

/// The shell tools' configuration.
#[derive(Debug, Clone, Default)]
pub struct ShellConfig {
    pub working_directory: Option<String>,
    pub shell: Option<String>,
    pub timeout_secs: Option<u64>,
    pub envs: HashMap<String, String>,
}

impl ShellConfig {
    /// The program that runs commands: the configured shell, or `bash`.
    pub fn program(&self) -> (r: &str)
        ensures
            r@ == match self.shell {
                Some(s) => s@,
                None => "bash"@,
            },
    {
        match &self.shell {
            Some(s) => s.as_str(),
            None => "bash",
        }
    }
}

/// The bytes of a line of output in UTF-8.
pub open spec fn line_bytes(s: String) -> nat {
    (vstd::utf8::encode_utf8(s@).len() as usize) as nat
}

/// The bytes of a list of lines.
pub open spec fn total_bytes(ls: Seq<String>) -> nat
    decreases ls.len(),
{
    if ls.len() == 0 {
        0
    } else {
        line_bytes(ls[0]) + total_bytes(ls.drop_first())
    }
}

/// Whether lines fit the limits of the buffer.
pub open spec fn within_limits(ls: Seq<String>) -> bool {
    ls.len() <= MAX_BUFFERED_OUTPUT_LINES && total_bytes(ls) <= MAX_BUFFERED_OUTPUT_BYTES
}

/// The newest lines of `ls` that fit the limits: the oldest are dropped
/// until the rest fit.
pub open spec fn kept_suffix(ls: Seq<String>) -> Seq<String>
    decreases ls.len(),
{
    if ls.len() == 0 || within_limits(ls) {
        ls
    } else {
        kept_suffix(ls.drop_first())
    }
}

proof fn lemma_total_push(s: Seq<String>, x: String)
    ensures
        total_bytes(s.push(x)) == total_bytes(s) + line_bytes(x),
    decreases s.len(),
{
    let t = s.push(x);
    if s.len() > 0 {
        assert(t.drop_first() =~= s.drop_first().push(x));
        assert(t[0] == s[0]);
        lemma_total_push(s.drop_first(), x);
        assert(total_bytes(t) == line_bytes(t[0]) + total_bytes(t.drop_first()));
        assert(total_bytes(s) == line_bytes(s[0]) + total_bytes(s.drop_first()));
    } else {
        assert(t.drop_first() =~= Seq::<String>::empty());
        assert(t[0] == x);
        assert(total_bytes(t) == line_bytes(t[0]) + total_bytes(t.drop_first()));
    }
}

/// Buffered unread output and final status of one spawned shell: at most
/// [`MAX_BUFFERED_OUTPUT_LINES`] lines and [`MAX_BUFFERED_OUTPUT_BYTES`]
/// bytes are kept; when more arrive the oldest unread lines are dropped and
/// the next read says so.
#[derive(Default)]
pub struct ShellOutput {
    pub lines: VecDeque<String>,
    pub buffered_bytes: usize,
    pub truncated: bool,
    pub exit_code: Option<Option<i32>>,
}


impl ShellOutput {
    /// The byte count matches the lines, which fit the limits.
    pub open spec fn wf(&self) -> bool {
        &&& self.buffered_bytes == total_bytes(self.lines@)
        &&& within_limits(self.lines@)
    }

    /// No output yet, and no exit.
    pub fn new() -> (r: Self)
        ensures
            r.wf(),
            r.lines@.len() == 0,
            !r.truncated,
            r.exit_code is None,
    {
        ShellOutput { lines: VecDeque::new(), buffered_bytes: 0, truncated: false, exit_code: None }
    }

    /// Adds a line of output; the oldest unread lines are dropped, and the
    /// loss recorded, until the rest fit the limits.
    pub fn push_line(&mut self, line: String)
        requires
            old(self).wf(),
        ensures
            final(self).wf(),
            final(self).lines@ == kept_suffix(old(self).lines@.push(line)),
            final(self).truncated == (old(self).truncated || kept_suffix(old(self).lines@.push(line))
                != old(self).lines@.push(line)),
            final(self).exit_code == old(self).exit_code,
    {
        let ghost all = self.lines@.push(line);
        let bytes = line.as_str().len();
        proof {
            lemma_total_push(self.lines@, line);
        }
        if bytes > MAX_BUFFERED_OUTPUT_BYTES {
            proof {
                lemma_kept_all_dropped(all);
            }
            self.lines = VecDeque::new();
            self.buffered_bytes = 0;
            self.truncated = true;
            assert(self.lines@ =~= kept_suffix(all));
            return;
        }
        self.lines.push_back(line);
        self.buffered_bytes = self.buffered_bytes + bytes;
        let ghost t0 = self.truncated;
        let ghost e0 = self.exit_code;
        let mut k: usize = 0;
        assert(all.skip(0) =~= all);
        while self.lines.len() > MAX_BUFFERED_OUTPUT_LINES || self.buffered_bytes > MAX_BUFFERED_OUTPUT_BYTES
            invariant
                all.len() > 0,
                all.len() <= MAX_BUFFERED_OUTPUT_LINES + 1,
                k <= all.len(),
                self.lines@ == all.skip(k as int),
                self.buffered_bytes == total_bytes(self.lines@),
                kept_suffix(all) == kept_suffix(all.skip(k as int)),
                self.truncated == t0,
                self.exit_code == e0,
            decreases all.len() - k,
        {
            let ghost before = self.lines@;
            assert(before.len() > 0) by {
                if before.len() == 0 {
                    assert(total_bytes(before) == 0);
                }
            }
            assert(!within_limits(before));
            assert(kept_suffix(before) == kept_suffix(before.drop_first()));
            assert(total_bytes(before) == line_bytes(before[0]) + total_bytes(before.drop_first()));
            let front = self.lines.pop_front().unwrap();
            let fb = front.as_str().len();
            self.buffered_bytes = self.buffered_bytes - fb;
            proof {
                assert(before.drop_first() =~= all.skip(k + 1));
            }
            k += 1;
        }
        proof {
            if self.lines@.len() == 0 {
                assert(total_bytes(self.lines@) == 0);
            }
            assert(within_limits(self.lines@));
            assert(kept_suffix(self.lines@) == self.lines@);
            if k > 0 {
                assert(self.lines@.len() < all.len());
            }
        }
        if k > 0 {
            self.truncated = true;
        }
    }

    /// Takes every unread line, joined by `\n`, with whether lines were lost
    /// since the last read; the buffer is then empty.
    pub fn take_unread(&mut self) -> (r: (String, bool))
        requires
            old(self).wf(),
        ensures
            final(self).wf(),
            final(self).lines@.len() == 0,
            !final(self).truncated,
            final(self).exit_code == old(self).exit_code,
            r.0@ == joined_output(old(self).lines@),
            r.1 == old(self).truncated,
    {
        let mut out = String::new();
        let ghost all = self.lines@;
        let mut i: usize = 0;
        while self.lines.len() > 0
            invariant
                i <= all.len(),
                all.len() <= MAX_BUFFERED_OUTPUT_LINES,
                self.exit_code == old(self).exit_code,
                self.truncated == old(self).truncated,
                self.lines@ == all.skip(i as int),
                out@ == joined_output(all.take(i as int)),
            decreases self.lines@.len(),
        {
            let ghost before = self.lines@;
            let line = self.lines.pop_front().unwrap();
            proof {
                assert(before.drop_first() =~= self.lines@);
                assert(line == all[i as int]);
                assert(all.take(i + 1).drop_last() =~= all.take(i as int));
                assert(all.take(i + 1).last() == all[i as int]);
                if i == 0 {
                    assert(all.take(1)[0] == all[0]);
                }
                assert(self.lines@ =~= all.skip(i + 1));
            }
            if i > 0 {
                push_str(&mut out, "\n");
            }
            push_str(&mut out, line.as_str());
            i += 1;
        }
        proof {
            assert(all.take(i as int) =~= all);
            assert(total_bytes(self.lines@) == 0);
        }
        let t = self.truncated;
        self.buffered_bytes = 0;
        self.truncated = false;
        (out, t)
    }
}

proof fn lemma_kept_all_dropped(ls: Seq<String>)
    requires
        ls.len() > 0,
        line_bytes(ls.last()) > MAX_BUFFERED_OUTPUT_BYTES,
    ensures
        kept_suffix(ls) == Seq::<String>::empty(),
    decreases ls.len(),
{
    lemma_total_last(ls);
    assert(!within_limits(ls));
    assert(kept_suffix(ls) == kept_suffix(ls.drop_first()));
    if ls.len() > 1 {
        assert(ls.drop_first().last() == ls.last());
        lemma_kept_all_dropped(ls.drop_first());
    } else {
        assert(ls.drop_first() =~= Seq::<String>::empty());
    }
}

proof fn lemma_total_last(ls: Seq<String>)
    requires
        ls.len() > 0,
    ensures
        total_bytes(ls) >= line_bytes(ls.last()),
    decreases ls.len(),
{
    if ls.len() > 1 {
        assert(ls.drop_first().last() == ls.last());
        lemma_total_last(ls.drop_first());
    }
}

/// Lines joined by `\n`.
pub open spec fn joined_output(ls: Seq<String>) -> Seq<char>
    decreases ls.len(),
{
    if ls.len() == 0 {
        Seq::empty()
    } else if ls.len() == 1 {
        ls[0]@
    } else {
        joined_output(ls.drop_last()) + "\n"@ + ls.last()@
    }
}

/// The last line a spawned shell reports: its exit code (-1 where it had
/// none, e.g. killed by a signal) when it could be waited for, and
/// `[terminated]` otherwise.
pub open spec fn exit_marker_spec(status: Option<Option<i32>>) -> Seq<char> {
    match status {
        Some(code) => "[exit_code="@ + signed_decimal_string(
            match code {
                Some(c) => c as int,
                None => -1,
            },
        ) + "]"@,
        None => "[terminated]"@,
    }
}

/// The last line a spawned shell reports.
pub fn exit_marker(status: Option<Option<i32>>) -> (r: String)
    ensures
        r@ == exit_marker_spec(status),
{
    let mut s = String::new();
    match status {
        Some(code) => {
            push_str(&mut s, "[exit_code=");
            let c: i32 = match code {
                Some(c) => c,
                None => -1,
            };
            push_signed(&mut s, c);
            push_str(&mut s, "]");
        },
        None => {
            push_str(&mut s, "[terminated]");
        },
    }
    s
}

/// What is written to a shell's input: the text, with a line end added
/// unless it already ends one.
pub open spec fn stdin_payload_spec(input: Seq<char>) -> Seq<char> {
    if input.len() > 0 && input.last() == '\n' {
        input
    } else {
        input + "\n"@
    }
}

/// What is written to a shell's input.
pub fn stdin_payload(input: &str) -> (r: String)
    ensures
        r@ == stdin_payload_spec(input@),
{
    let v = crate::text::chars_of(input);
    let mut s = crate::text::copy_str(input);
    if !(v.len() > 0 && v[v.len() - 1] == '\n') {
        push_str(&mut s, "\n");
    }
    s
}

/// The shell id argument of a shell tool: an integer that fits 32 bits.
pub fn parse_shell_id(params: &serde_json::Value) -> (r: Result<u32, ToolError>)
    ensures
        match r {
            Ok(id) => json_u64_at(*params, "shell_id"@) == Some(id as u64),
            Err(e) => e@ == ToolErrorView::InvalidParameters(
                "Missing or invalid 'shell_id' parameter"@,
            ) && match json_u64_at(*params, "shell_id"@) {
                Some(n) => n > u32::MAX,
                None => true,
            },
        },
{
    match json_u64_field(params, "shell_id") {
        Some(n) => {
            if n <= u32::MAX as u64 {
                return Ok(n as u32);
            }
        },
        None => {},
    }
    let mut m = String::new();
    push_str(&mut m, "Missing or invalid 'shell_id' parameter");
    Err(ToolError::InvalidParameters(m))
}

/// The refusal of a shell tool called with an id that no running shell has.
pub fn no_active_shell(shell_id: u32) -> (r: ToolError)
    ensures
        r@ == ToolErrorView::InvalidParameters(
            "No active shell with shell_id "@ + crate::text::decimal_string(shell_id as nat),
        ),
{
    let mut m = String::new();
    push_str(&mut m, "No active shell with shell_id ");
    push_decimal(&mut m, shell_id as u64);
    ToolError::InvalidParameters(m)
}

/// The failure of a one-shot command that ran out of time.
pub fn timed_out(secs: u64) -> (r: ToolError)
    ensures
        r@ == ToolErrorView::ExecutionError(
            "command timed out after "@ + crate::text::decimal_string(secs as nat) + "s"@,
        ),
{
    let mut m = String::new();
    push_str(&mut m, "command timed out after ");
    push_decimal(&mut m, secs);
    push_str(&mut m, "s");
    ToolError::ExecutionError(m)
}



/// The finished shells that are still remembered, oldest first; at most
/// [`MAX_COMPLETED_SHELLS`] of them.
#[derive(Default)]
pub struct FinishedShells {
    pub ids: VecDeque<u32>,
}

impl FinishedShells {
    /// Whether the record holds no more than it may.
    pub open spec fn wf(&self) -> bool {
        self.ids@.len() <= MAX_COMPLETED_SHELLS
    }

    /// No shell has finished.
    pub fn new() -> (r: Self)
        ensures
            r.wf(),
            r.ids@.len() == 0,
    {
        FinishedShells { ids: VecDeque::new() }
    }

    /// Records that shell `id` finished; the oldest finished shell is
    /// forgotten, and given back, when more than the limit would be kept.
    pub fn record(&mut self, id: u32) -> (evicted: Option<u32>)
        requires
            old(self).wf(),
        ensures
            final(self).wf(),
            old(self).ids@.len() < MAX_COMPLETED_SHELLS ==> evicted is None && final(self).ids@ == old(
                self,
            ).ids@.push(id),
            old(self).ids@.len() == MAX_COMPLETED_SHELLS ==> evicted == Some(old(self).ids@[0])
                && final(self).ids@ == old(self).ids@.push(id).drop_first(),
    {
        self.ids.push_back(id);
        if self.ids.len() > MAX_COMPLETED_SHELLS {
            let front = self.ids.pop_front();
            assert(front == Some(old(self).ids@.push(id)[0]));
            front
        } else {
            None
        }
    }
}

/// What the buffer keeps of its lines is their newest part, in order, and
/// always fits the limits.
pub proof fn law_buffer_keeps_newest(ls: Seq<String>)
    ensures
        kept_suffix(ls).len() <= ls.len(),
        kept_suffix(ls) == ls.skip(ls.len() - kept_suffix(ls).len()),
        within_limits(kept_suffix(ls)),
    decreases ls.len(),
{
    if ls.len() == 0 {
        assert(total_bytes(ls) == 0);
        assert(ls.skip(0) =~= ls);
    } else if within_limits(ls) {
        assert(ls.skip(0) =~= ls);
    } else {
        law_buffer_keeps_newest(ls.drop_first());
        let k = kept_suffix(ls.drop_first());
        assert(ls.drop_first().skip(ls.drop_first().len() - k.len()) =~= ls.skip(ls.len() - k.len()));
    }
}

} // verus!
