//! The per-turn registry of subagents: which runs exist, which of them are
//! still running, and what each finished run produced. The tasks themselves
//! run outside; the registry records their registration, completion, abort
//! and the decisions of the wait operations.
use vstd::prelude::*;

use crate::message::{copy_messages, messages_view, Message, MessageView, Turn, Usage};
use crate::text::{push_decimal, push_str};

verus! {

broadcast use vstd::string::group_string_axioms;

/// The captured outcome of one subagent run.
#[derive(Debug, Clone)]
pub struct SubagentRunResult {
    pub usage: Usage,
    pub messages: Vec<Message>,
    pub finished: bool,
}

/// The mathematical content of a [`SubagentRunResult`].
pub struct RunResultView {
    pub usage: Usage,
    pub messages: Seq<MessageView>,
    pub finished: bool,
}

impl View for SubagentRunResult {
    type V = RunResultView;

    open spec fn view(&self) -> RunResultView {
        RunResultView {
            usage: self.usage,
            messages: messages_view(self.messages@),
            finished: self.finished,
        }
    }
}

/// The result recorded when a run ends without producing anything.
pub open spec fn empty_partial_view() -> RunResultView {
    RunResultView {
        usage: Usage { total_input: 0, total_output: 0, cache_hit: false, cache_miss: 0 },
        messages: Seq::empty(),
        finished: false,
    }
}

impl SubagentRunResult {
    /// The result of a run that produced `turn`.
    pub fn from_turn(turn: Turn) -> (r: Self)
        ensures
            r@ == (RunResultView {
                usage: turn@.usage,
                messages: turn@.messages,
                finished: turn@.finished,
            }),
    {
        SubagentRunResult { usage: turn.usage, messages: turn.messages, finished: turn.finished }
    }

    /// An unfinished result with no messages and no usage.
    pub fn empty_partial() -> (r: Self)
        ensures
            r@ == empty_partial_view(),
    {
        let r = SubagentRunResult { usage: Usage::zero(), messages: Vec::new(), finished: false };
        assert(r@.messages =~= Seq::<MessageView>::empty());
        r
    }
}

/// An equal copy of a run result.
pub fn copy_run_result(r: &SubagentRunResult) -> (c: SubagentRunResult)
    ensures
        c@ == r@,
{
    SubagentRunResult { usage: r.usage, messages: copy_messages(&r.messages), finished: r.finished }
}

/// An observable snapshot of one subagent run. A terminal snapshot carries
/// its complete or partial result, so no reader sees one without the other.
#[derive(Debug, Clone)]
pub enum SubagentSnapshot {
    Running,
    Finished(SubagentRunResult),
    Error { error: String, partial: SubagentRunResult },
}

/// The mathematical content of a [`SubagentSnapshot`].
pub enum SnapshotView {
    Running,
    Finished(RunResultView),
    Error(Seq<char>, RunResultView),
}

impl View for SubagentSnapshot {
    type V = SnapshotView;

    open spec fn view(&self) -> SnapshotView {
        match self {
            SubagentSnapshot::Running => SnapshotView::Running,
            SubagentSnapshot::Finished(r) => SnapshotView::Finished(r@),
            SubagentSnapshot::Error { error, partial } => SnapshotView::Error(error@, partial@),
        }
    }
}

/// The lowercase name of a run state.
pub open spec fn snapshot_name(s: SnapshotView) -> Seq<char> {
    match s {
        SnapshotView::Running => "running"@,
        SnapshotView::Finished(_) => "finished"@,
        SnapshotView::Error(_, _) => "error"@,
    }
}

/// Whether a run has reached a terminal state.
pub open spec fn is_ready_spec(s: SnapshotView) -> bool {
    !(s is Running)
}

impl SubagentSnapshot {
    /// The lowercase name of this state: "running", "finished" or "error".
    pub fn name(&self) -> (r: &'static str)
        ensures
            r@ == snapshot_name(self@),
    {
        match self {
            SubagentSnapshot::Running => {
                proof {
                    reveal_strlit("running");
                }
                "running"
            },
            SubagentSnapshot::Finished(_) => {
                proof {
                    reveal_strlit("finished");
                }
                "finished"
            },
            SubagentSnapshot::Error { .. } => {
                proof {
                    reveal_strlit("error");
                }
                "error"
            },
        }
    }

    /// Whether the run has finished or failed.
    pub fn is_ready(&self) -> (r: bool)
        ensures
            r == is_ready_spec(self@),
    {
        match self {
            SubagentSnapshot::Running => false,
            _ => true,
        }
    }

    /// The complete or partial result of a terminal run.
    pub fn result(&self) -> (r: Option<&SubagentRunResult>)
        ensures
            match self@ {
                SnapshotView::Running => r is None,
                SnapshotView::Finished(x) => r is Some && r->0@ == x,
                SnapshotView::Error(_, x) => r is Some && r->0@ == x,
            },
    {
        match self {
            SubagentSnapshot::Running => None,
            SubagentSnapshot::Finished(result) => Some(result),
            SubagentSnapshot::Error { partial, .. } => Some(partial),
        }
    }

    /// The error of a failed run.
    pub fn error(&self) -> (r: Option<&str>)
        ensures
            match self@ {
                SnapshotView::Error(e, _) => r is Some && r->0@ == e,
                _ => r is None,
            },
    {
        match self {
            SubagentSnapshot::Error { error, .. } => Some(error.as_str()),
            _ => None,
        }
    }
}

/// An equal copy of a snapshot.
pub fn copy_snapshot(s: &SubagentSnapshot) -> (c: SubagentSnapshot)
    ensures
        c@ == s@,
{
    match s {
        SubagentSnapshot::Running => SubagentSnapshot::Running,
        SubagentSnapshot::Finished(r) => SubagentSnapshot::Finished(copy_run_result(r)),
        SubagentSnapshot::Error { error, partial } => SubagentSnapshot::Error {
            error: error.clone(),
            partial: copy_run_result(partial),
        },
    }
}

/// The lowercase name of a run state, as the tools report it.
pub fn run_state_name(s: &SubagentSnapshot) -> (r: &'static str)
    ensures
        r@ == snapshot_name(s@),
{
    s.name()
}

/// The terminal value that a subagent run hands back.
#[derive(Debug)]
pub enum SubagentRunOutcome {
    Finished(SubagentRunResult),
    Error { error: String, partial: SubagentRunResult },
}

/// The snapshot that records an outcome.
pub open spec fn outcome_view(o: SubagentRunOutcome) -> SnapshotView {
    match o {
        SubagentRunOutcome::Finished(r) => SnapshotView::Finished(r@),
        SubagentRunOutcome::Error { error, partial } => SnapshotView::Error(error@, partial@),
    }
}

impl SubagentSnapshot {
    /// The terminal snapshot that records `outcome`.
    pub fn from_outcome(outcome: SubagentRunOutcome) -> (r: Self)
        ensures
            r@ == outcome_view(outcome),
    {
        match outcome {
            SubagentRunOutcome::Finished(result) => SubagentSnapshot::Finished(result),
            SubagentRunOutcome::Error { error, partial } => SubagentSnapshot::Error {
                error,
                partial,
            },
        }
    }
}

/// The message of a run that panicked, from the panic's text where it had
/// one.
pub open spec fn panic_message_spec(payload: Option<Seq<char>>) -> Seq<char> {
    match payload {
        Some(m) => "subagent task panicked: "@ + m,
        None => "subagent task panicked"@,
    }
}

/// The error message recorded for a run that panicked; `payload` is the
/// panic's text where it was a string.
pub fn panic_message(payload: Option<&str>) -> (r: String)
    ensures
        r@ == panic_message_spec(
            match payload {
                Some(m) => Some(m@),
                None => None,
            },
        ),
{
    let mut s = String::new();
    match payload {
        Some(m) => {
            push_str(&mut s, "subagent task panicked: ");
            push_str(&mut s, m);
        },
        None => {
            push_str(&mut s, "subagent task panicked");
        },
    }
    s
}

/// No subagent has the id.
#[derive(Debug, Clone, Copy, PartialEq, Eq, Structural)]
pub struct SubagentNotFound(pub u64);

impl SubagentNotFound {
    /// "agent <id> not found".
    pub fn message(&self) -> (r: String)
        ensures
            r@ == "agent "@ + crate::text::decimal_string(self.0 as nat) + " not found"@,
    {
        let mut s = String::new();
        push_str(&mut s, "agent ");
        push_decimal(&mut s, self.0);
        push_str(&mut s, " not found");
        s
    }
}


/// What a wait for any one of several runs comes to.
#[derive(Debug)]
pub enum WaitAnyOutcome {
    Ready { agent_id: u64, snapshot: SubagentSnapshot },
    Timeout { pending: Vec<u64> },
}

/// What a wait for all of several runs comes to.
#[derive(Debug)]
pub enum WaitAllOutcome {
    Ready { results: Vec<(u64, SubagentSnapshot)> },
    Timeout { ready: Vec<u64>, pending: Vec<u64> },
}

/// A spawn was refused because the registry is closing for this turn.
#[derive(Debug, Clone, Copy, PartialEq, Eq, Structural)]
pub struct RegistryClosing;

impl RegistryClosing {
    /// "subagent registry is closing".
    pub fn message(&self) -> (r: String)
        ensures
            r@ == "subagent registry is closing"@,
    {
        let mut s = String::new();
        push_str(&mut s, "subagent registry is closing");
        s
    }
}

/// The state of a registry: each registered run's snapshot by id, the last
/// id handed out, and whether spawns are accepted.
pub struct RegistryView {
    pub states: Map<u64, SnapshotView>,
    pub next_id: u64,
    pub accepting: bool,
}

/// Every registered id was handed out: it lies between 1 and the last id.
pub open spec fn model_wf(m: RegistryView) -> bool {
    forall|id: u64| #[trigger] m.states.contains_key(id) ==> 1 <= id <= m.next_id
}

/// Registering a spawn: refused while the registry is closing; otherwise
/// the next id is handed out and its run starts as running.
pub open spec fn spawn_step(m: RegistryView) -> (RegistryView, Option<u64>) {
    if !m.accepting {
        (m, None)
    } else {
        let id = (m.next_id + 1) as u64;
        (RegistryView { states: m.states.insert(id, SnapshotView::Running), next_id: id, ..m }, Some(id))
    }
}

/// Recording the outcome of a run that is still registered; a run removed
/// by an abort is not brought back.
pub open spec fn complete_step(m: RegistryView, id: u64, s: SnapshotView) -> RegistryView {
    if m.states.contains_key(id) {
        RegistryView { states: m.states.insert(id, s), ..m }
    } else {
        m
    }
}

/// Removing one run; the flag says whether it was registered.
pub open spec fn abort_step(m: RegistryView, id: u64) -> (RegistryView, bool) {
    (RegistryView { states: m.states.remove(id), ..m }, m.states.contains_key(id))
}

/// Closing the registry to spawns and removing every run.
pub open spec fn abort_all_step(m: RegistryView) -> RegistryView {
    RegistryView { states: Map::empty(), accepting: false, ..m }
}

/// Reopening the registry for the next turn.
pub open spec fn begin_turn_step(m: RegistryView) -> RegistryView {
    RegistryView { accepting: true, ..m }
}

/// A sequence of ids in strictly increasing order.
pub open spec fn strictly_increasing(s: Seq<u64>) -> bool {
    forall|i: int, j: int| 0 <= i < j < s.len() ==> s[i] < s[j]
}

/// The registered runs as a map, from a list of entries.
pub open spec fn entries_map(s: Seq<(u64, SubagentSnapshot)>) -> Map<u64, SnapshotView>
    decreases s.len(),
{
    if s.len() == 0 {
        Map::empty()
    } else {
        entries_map(s.drop_last()).insert(s.last().0, s.last().1@)
    }
}

/// The ids of a list of entries.
pub open spec fn entry_ids(s: Seq<(u64, SubagentSnapshot)>) -> Seq<u64> {
    s.map_values(|e: (u64, SubagentSnapshot)| e.0)
}

proof fn lemma_entries_map(s: Seq<(u64, SubagentSnapshot)>)
    requires
        strictly_increasing(entry_ids(s)),
    ensures
        forall|k: u64|
            #[trigger] entries_map(s).contains_key(k) <==> exists|i: int|
                0 <= i < s.len() && (#[trigger] s[i]).0 == k,
        forall|i: int| 0 <= i < s.len() ==> entries_map(s)[(#[trigger] s[i]).0] == s[i].1@,
    decreases s.len(),
{
    if s.len() > 0 {
        let init = s.drop_last();
        assert forall|i: int, j: int| 0 <= i < j < init.len() implies entry_ids(init)[i] < entry_ids(
            init,
        )[j] by {
            assert(entry_ids(init)[i] == entry_ids(s)[i]);
            assert(entry_ids(init)[j] == entry_ids(s)[j]);
        }
        lemma_entries_map(init);
        assert forall|k: u64| #[trigger] entries_map(s).contains_key(k) implies exists|i: int|
            0 <= i < s.len() && (#[trigger] s[i]).0 == k by {
            if k != s.last().0 {
                assert(entries_map(init).contains_key(k));
                let i = choose|i: int| 0 <= i < init.len() && (#[trigger] init[i]).0 == k;
                assert(s[i] == init[i]);
                assert(s[i].0 == k);
            } else {
                assert(s[s.len() - 1] == s.last());
            }
        }
        assert forall|i: int| 0 <= i < s.len() implies entries_map(s)[(#[trigger] s[i]).0]
            == s[i].1@ by {
            if i < s.len() - 1 {
                assert(s[i] == init[i]);
                assert(entry_ids(s)[i] < entry_ids(s)[s.len() - 1]);
            }
        }
        assert forall|k: u64| (exists|i: int| 0 <= i < s.len() && (#[trigger] s[i]).0 == k)
            implies #[trigger] entries_map(s).contains_key(k) by {
            let i = choose|i: int| 0 <= i < s.len() && (#[trigger] s[i]).0 == k;
            if i < s.len() - 1 {
                assert(s[i] == init[i]);
            }
        }
    }
}

proof fn lemma_model_wf(s: Seq<(u64, SubagentSnapshot)>, next_id: u64)
    requires
        strictly_increasing(entry_ids(s)),
        forall|i: int| 0 <= i < s.len() ==> 1 <= (#[trigger] s[i]).0 <= next_id,
    ensures
        forall|id: u64| #[trigger] entries_map(s).contains_key(id) ==> 1 <= id <= next_id,
{
    lemma_entries_map(s);
    assert forall|id: u64| #[trigger] entries_map(s).contains_key(id) implies 1 <= id <= next_id by {
        let i = choose|i: int| 0 <= i < s.len() && (#[trigger] s[i]).0 == id;
    }
}

/// The ids of the entries whose runs are still running, in order.
pub open spec fn running_ids(s: Seq<(u64, SubagentSnapshot)>) -> Seq<u64>
    decreases s.len(),
{
    if s.len() == 0 {
        Seq::empty()
    } else if s.last().1@ is Running {
        running_ids(s.drop_last()).push(s.last().0)
    } else {
        running_ids(s.drop_last())
    }
}

proof fn lemma_running_ids(s: Seq<(u64, SubagentSnapshot)>)
    requires
        strictly_increasing(entry_ids(s)),
    ensures
        strictly_increasing(running_ids(s)),
        forall|id: u64| #[trigger]
            running_ids(s).contains(id) <==> exists|j: int|
                0 <= j < s.len() && (#[trigger] s[j]).0 == id && s[j].1@ is Running,
        s.len() > 0 ==> forall|k: int|
            0 <= k < running_ids(s).len() ==> #[trigger] running_ids(s)[k] <= s.last().0,
    decreases s.len(),
{
    if s.len() > 0 {
        let init = s.drop_last();
        assert forall|i: int, j: int| 0 <= i < j < init.len() implies entry_ids(init)[i] < entry_ids(
            init,
        )[j] by {
            assert(entry_ids(init)[i] == entry_ids(s)[i]);
            assert(entry_ids(init)[j] == entry_ids(s)[j]);
        }
        lemma_running_ids(init);
        let r0 = running_ids(init);
        if init.len() > 0 {
            assert(entry_ids(s)[init.len() - 1] < entry_ids(s)[s.len() - 1]);
            assert(init.last() == s[init.len() - 1]);
        }
        assert(s[s.len() - 1] == s.last());
        assert forall|k: int| 0 <= k < r0.len() implies #[trigger] r0[k] < s.last().0 by {
            if init.len() > 0 {
                assert(r0[k] <= init.last().0);
            }
        }
        assert forall|id: u64| #[trigger] running_ids(s).contains(id) implies exists|j: int|
            0 <= j < s.len() && (#[trigger] s[j]).0 == id && s[j].1@ is Running by {
            if r0.contains(id) {
                let j = choose|j: int| 0 <= j < init.len() && (#[trigger] init[j]).0 == id
                    && init[j].1@ is Running;
                assert(s[j] == init[j]);
            }
        }
        assert forall|id: u64| (exists|j: int|
            0 <= j < s.len() && (#[trigger] s[j]).0 == id && s[j].1@ is Running) implies #[trigger]
            running_ids(s).contains(id) by {
            let j = choose|j: int| 0 <= j < s.len() && (#[trigger] s[j]).0 == id && s[j].1@ is Running;
            if j < init.len() {
                assert(s[j] == init[j]);
                assert(r0.contains(id));
                let k = choose|k: int| 0 <= k < r0.len() && r0[k] == id;
                if s.last().1@ is Running {
                    assert(running_ids(s)[k] == id);
                }
            } else {
                assert(running_ids(s)[running_ids(s).len() - 1] == id);
            }
        }
        assert forall|k: int| 0 <= k < running_ids(s).len() implies #[trigger] running_ids(s)[k]
            <= s.last().0 by {
            if k < r0.len() {
                assert(running_ids(s)[k] == r0[k]);
            }
        }
    }
}

/// Scanning `ids` from position `i` on, as a wait for any one run does: the
/// first id that is not registered refuses the wait, the first id whose run
/// is terminal ends it, and otherwise the wait goes on.
pub open spec fn any_scan_from(states: Map<u64, SnapshotView>, ids: Seq<u64>, i: int) -> Result<
    Option<u64>,
    u64,
>
    decreases ids.len() - i,
{
    if i < 0 || i >= ids.len() {
        Ok(None)
    } else if !states.contains_key(ids[i]) {
        Err(ids[i])
    } else if is_ready_spec(states[ids[i]]) {
        Ok(Some(ids[i]))
    } else {
        any_scan_from(states, ids, i + 1)
    }
}

/// The first of `ids` that is not registered.
pub open spec fn first_absent(states: Map<u64, SnapshotView>, ids: Seq<u64>) -> Option<u64>
    decreases ids.len(),
{
    if ids.len() == 0 {
        None
    } else if !states.contains_key(ids[0]) {
        Some(ids[0])
    } else {
        first_absent(states, ids.drop_first())
    }
}

/// The ids among `ids` whose runs are terminal, in order.
pub open spec fn ready_of(states: Map<u64, SnapshotView>, ids: Seq<u64>) -> Seq<u64>
    decreases ids.len(),
{
    if ids.len() == 0 {
        Seq::empty()
    } else if is_ready_spec(states[ids.last()]) {
        ready_of(states, ids.drop_last()).push(ids.last())
    } else {
        ready_of(states, ids.drop_last())
    }
}

/// The ids among `ids` whose runs are still running, in order.
pub open spec fn pending_of(states: Map<u64, SnapshotView>, ids: Seq<u64>) -> Seq<u64>
    decreases ids.len(),
{
    if ids.len() == 0 {
        Seq::empty()
    } else if is_ready_spec(states[ids.last()]) {
        pending_of(states, ids.drop_last())
    } else {
        pending_of(states, ids.drop_last()).push(ids.last())
    }
}

/// The contents of a list of (id, snapshot) results.
pub open spec fn results_view(v: Seq<(u64, SubagentSnapshot)>) -> Seq<(u64, SnapshotView)> {
    v.map_values(|e: (u64, SubagentSnapshot)| (e.0, e.1@))
}

proof fn lemma_first_absent_prefix(states: Map<u64, SnapshotView>, ids: Seq<u64>, k: int)
    requires
        0 <= k <= ids.len(),
        forall|j: int| 0 <= j < k ==> states.contains_key(#[trigger] ids[j]),
    ensures
        first_absent(states, ids) == first_absent(states, ids.subrange(k, ids.len() as int)),
    decreases k,
{
    if k > 0 {
        assert(ids.drop_first().subrange(k - 1, ids.drop_first().len() as int) =~= ids.subrange(
            k,
            ids.len() as int,
        ));
        assert forall|j: int| 0 <= j < k - 1 implies states.contains_key(
            #[trigger] ids.drop_first()[j],
        ) by {
            assert(ids.drop_first()[j] == ids[j + 1]);
        }
        lemma_first_absent_prefix(states, ids.drop_first(), k - 1);
        assert(states.contains_key(ids[0]));
    } else {
        assert(ids.subrange(0, ids.len() as int) =~= ids);
    }
}

/// The registry of the subagents spawned during one parent turn.
#[derive(Debug)]
pub struct SubagentRegistry {
    entries: Vec<(u64, SubagentSnapshot)>,
    next_id: u64,
    accepting_spawns: bool,
}

impl View for SubagentRegistry {
    type V = RegistryView;

    closed spec fn view(&self) -> RegistryView {
        RegistryView {
            states: entries_map(self.entries@),
            next_id: self.next_id,
            accepting: self.accepting_spawns,
        }
    }
}

impl SubagentRegistry {
    /// Entries are kept in increasing id order, and no id exceeds the last
    /// one handed out.
    #[verifier::type_invariant]
    spec fn well_formed(self) -> bool {
        &&& strictly_increasing(entry_ids(self.entries@))
        &&& forall|i: int|
            0 <= i < self.entries@.len() ==> 1 <= (#[trigger] self.entries@[i]).0 <= self.next_id
    }

    /// An empty registry that accepts spawns.
    pub fn new() -> (r: Self)
        ensures
            r@ == (RegistryView { states: Map::empty(), next_id: 0, accepting: true }),
    {
        let r = SubagentRegistry { entries: Vec::new(), next_id: 0, accepting_spawns: true };
        proof {
            assert(entries_map(r.entries@) =~= Map::<u64, SnapshotView>::empty());
        }
        r
    }

    /// The last id handed out (0 before the first spawn).
    pub fn last_id(&self) -> (r: u64)
        ensures
            r == self@.next_id,
    {
        self.next_id
    }

    /// Reopens the registry for a new parent turn.
    pub fn begin_turn(&mut self)
        ensures
            final(self)@ == begin_turn_step(old(self)@),
    {
        proof {
            use_type_invariant(&*self);
        }
        self.accepting_spawns = true;
    }

    /// Registers a new run as running and hands out its id. The task that
    /// performs the run is started by the caller, which records its outcome
    /// with [`Self::complete`].
    pub fn spawn(&mut self) -> (r: Result<u64, RegistryClosing>)
        requires
            old(self)@.next_id < u64::MAX,
        ensures
            (final(self)@, match r {
                Ok(id) => Some(id),
                Err(_) => None,
            }) == spawn_step(old(self)@),
            r is Ok ==> !old(self)@.states.contains_key(r->Ok_0),
    {
        proof {
            use_type_invariant(&*self);
            lemma_model_wf(self.entries@, self.next_id);
        }
        if !self.accepting_spawns {
            return Err(RegistryClosing);
        }
        let id = self.next_id + 1;
        let ghost old_entries = self.entries@;
        let mut entries: Vec<(u64, SubagentSnapshot)> = Vec::new();
        std::mem::swap(&mut entries, &mut self.entries);
        entries.push((id, SubagentSnapshot::Running));
        proof {
            assert(entries@.drop_last() =~= old_entries);
            assert forall|i: int, j: int| 0 <= i < j < entries@.len() implies entry_ids(
                entries@,
            )[i] < entry_ids(entries@)[j] by {
                assert(entry_ids(entries@)[i] == entries@[i].0);
                assert(entry_ids(entries@)[j] == entries@[j].0);
                if j < old_entries.len() {
                    assert(entry_ids(old_entries)[i] == old_entries[i].0);
                    assert(entry_ids(old_entries)[j] == old_entries[j].0);
                    assert(entries@[i] == old_entries[i]);
                    assert(entries@[j] == old_entries[j]);
                } else {
                    assert(entries@[i] == old_entries[i]);
                }
            }
            assert forall|i: int| 0 <= i < entries@.len() implies 1 <= (#[trigger] entries@[i]).0
                <= id by {
                if i < old_entries.len() {
                    assert(entries@[i] == old_entries[i]);
                }
            }
        }
        self.next_id = id;
        self.entries = entries;
        Ok(id)
    }

    /// Position of `agent_id` among the entries.
    fn position(&self, agent_id: u64) -> (r: Option<usize>)
        ensures
            match r {
                Some(i) => i < self.entries@.len() && self.entries@[i as int].0 == agent_id,
                None => !self@.states.contains_key(agent_id),
            },
            r is Some <==> self@.states.contains_key(agent_id),
    {
        proof {
            use_type_invariant(self);
            lemma_entries_map(self.entries@);
        }
        let mut i: usize = 0;
        while i < self.entries.len()
            invariant
                i <= self.entries@.len(),
                forall|j: int| 0 <= j < i ==> (#[trigger] self.entries@[j]).0 != agent_id,
            decreases self.entries.len() - i,
        {
            if self.entries[i].0 == agent_id {
                proof {
                    use_type_invariant(self);
                    lemma_entries_map(self.entries@);
                }
                return Some(i);
            }
            i += 1;
        }
        None
    }

    /// Records the outcome of a run. A run that was aborted meanwhile stays
    /// removed.
    pub fn complete(&mut self, agent_id: u64, outcome: SubagentRunOutcome)
        ensures
            final(self)@ == complete_step(old(self)@, agent_id, outcome_view(outcome)),
    {
        let ghost snap = outcome_view(outcome);
        match self.position(agent_id) {
            None => {},
            Some(i) => {
                proof {
                    use_type_invariant(&*self);
                    lemma_entries_map(self.entries@);
                }
                let ghost old_entries = self.entries@;
                let snapshot = SubagentSnapshot::from_outcome(outcome);
                let mut entries: Vec<(u64, SubagentSnapshot)> = Vec::new();
                std::mem::swap(&mut entries, &mut self.entries);
                entries.set(i, (agent_id, snapshot));
                proof {
                    assert(entry_ids(entries@) =~= entry_ids(old_entries));
                    assert forall|j: int| 0 <= j < entries@.len() implies 1 <= (
                    #[trigger] entries@[j]).0 <= self.next_id by {
                        assert(entries@[j].0 == old_entries[j].0);
                    }
                }
                self.entries = entries;
                proof {
                    lemma_entries_map(self.entries@);
                    assert(entries_map(self.entries@) =~= entries_map(old_entries).insert(
                        agent_id,
                        snap,
                    )) by {
                        assert forall|k: u64| #[trigger] entries_map(self.entries@).contains_key(
                            k,
                        ) == entries_map(old_entries).insert(agent_id, snap).contains_key(k) by {
                            if entries_map(self.entries@).contains_key(k) {
                                let j = choose|j: int| 0 <= j < self.entries@.len() && (
                                #[trigger] self.entries@[j]).0 == k;
                                assert(old_entries[j].0 == self.entries@[j].0);
                            }
                            if entries_map(old_entries).contains_key(k) {
                                let j = choose|j: int| 0 <= j < old_entries.len() && (
                                #[trigger] old_entries[j]).0 == k;
                                assert(old_entries[j].0 == self.entries@[j].0);
                            }
                        }
                        assert forall|k: u64| #[trigger] entries_map(self.entries@).contains_key(k)
                            implies entries_map(self.entries@)[k] == entries_map(
                            old_entries,
                        ).insert(agent_id, snap)[k] by {
                            let j = choose|j: int| 0 <= j < self.entries@.len() && (
                            #[trigger] self.entries@[j]).0 == k;
                            assert(old_entries[j].0 == self.entries@[j].0);
                            if j != i {
                                assert(self.entries@[j] == old_entries[j]);
                                assert(entry_ids(old_entries)[j] != entry_ids(old_entries)[i as int]);
                            }
                        }
                    }
                }
            },
        }
    }

    /// The snapshot of a registered run.
    pub fn snapshot(&self, agent_id: u64) -> (r: Option<&SubagentSnapshot>)
        ensures
            match r {
                Some(s) => self@.states.contains_key(agent_id) && s@ == self@.states[agent_id],
                None => !self@.states.contains_key(agent_id),
            },
    {
        match self.position(agent_id) {
            Some(i) => {
                proof {
                    use_type_invariant(self);
                    lemma_entries_map(self.entries@);
                }
                Some(&self.entries[i].1)
            },
            None => None,
        }
    }

    /// Whether a run is registered under `agent_id`.
    pub fn contains(&self, agent_id: u64) -> (r: bool)
        ensures
            r == self@.states.contains_key(agent_id),
    {
        self.position(agent_id).is_some()
    }

    /// Every registered id, in increasing order.
    pub fn all_agent_ids(&self) -> (r: Vec<u64>)
        ensures
            strictly_increasing(r@),
            forall|id: u64| #[trigger] r@.contains(id) <==> self@.states.contains_key(id),
    {
        proof {
            use_type_invariant(self);
            lemma_entries_map(self.entries@);
        }
        let mut r: Vec<u64> = Vec::new();
        for i in 0..self.entries.len()
            invariant
                strictly_increasing(entry_ids(self.entries@)),
                r@ == entry_ids(self.entries@).take(i as int),
        {
            r.push(self.entries[i].0);
            assert(r@ =~= entry_ids(self.entries@).take(i + 1));
        }
        assert(r@ =~= entry_ids(self.entries@));
        proof {
            assert forall|id: u64| #[trigger] r@.contains(id) implies self@.states.contains_key(id) by {
                let j = choose|j: int| 0 <= j < r@.len() && r@[j] == id;
                assert(self.entries@[j].0 == id);
            }
            assert forall|id: u64| self@.states.contains_key(id) implies #[trigger] r@.contains(id) by {
                let j = choose|j: int| 0 <= j < self.entries@.len() && (#[trigger] self.entries@[j]).0
                    == id;
                assert(r@[j] == id);
            }
        }
        r
    }

    /// The registered ids whose runs are still running, in increasing order.
    pub fn running_agent_ids(&self) -> (r: Vec<u64>)
        ensures
            strictly_increasing(r@),
            forall|id: u64| #[trigger]
                r@.contains(id) <==> (self@.states.contains_key(id) && self@.states[id] is Running),
    {
        proof {
            use_type_invariant(self);
            lemma_entries_map(self.entries@);
        }
        let mut r: Vec<u64> = Vec::new();
        for i in 0..self.entries.len()
            invariant
                r@ == running_ids(self.entries@.take(i as int)),
        {
            proof {
                assert(self.entries@.take(i + 1).drop_last() =~= self.entries@.take(i as int));
                assert(self.entries@.take(i + 1).last() == self.entries@[i as int]);
            }
            if !self.entries[i].1.is_ready() {
                r.push(self.entries[i].0);
            }
        }
        proof {
            assert(self.entries@.take(self.entries@.len() as int) =~= self.entries@);
            lemma_running_ids(self.entries@);
            assert forall|id: u64| #[trigger] r@.contains(id) implies (self@.states.contains_key(id)
                && self@.states[id] is Running) by {
                let j = choose|j: int|
                    0 <= j < self.entries@.len() && (#[trigger] self.entries@[j]).0 == id
                        && self.entries@[j].1@ is Running;
            }
            assert forall|id: u64| (self@.states.contains_key(id) && self@.states[id] is Running)
                implies #[trigger] r@.contains(id) by {
                let j = choose|j: int| 0 <= j < self.entries@.len() && (#[trigger] self.entries@[j]).0
                    == id;
            }
        }
        r
    }

    /// Removes a run, whatever its state; says whether it was registered.
    /// Cancelling and awaiting its task is the caller's part.
    pub fn abort(&mut self, agent_id: u64) -> (r: bool)
        ensures
            (final(self)@, r) == abort_step(old(self)@, agent_id),
    {
        match self.position(agent_id) {
            None => {
                proof {
                    assert(self@.states.remove(agent_id) =~= self@.states);
                }
                false
            },
            Some(i) => {
                proof {
                    use_type_invariant(&*self);
                    lemma_entries_map(self.entries@);
                }
                let ghost old_entries = self.entries@;
                let mut entries: Vec<(u64, SubagentSnapshot)> = Vec::new();
                std::mem::swap(&mut entries, &mut self.entries);
                entries.remove(i);
                proof {
                    let s = entries@;
                    assert(s =~= old_entries.remove(i as int));
                    assert forall|j: int| 0 <= j < s.len() implies 1 <= (#[trigger] s[j]).0
                        <= self.next_id by {
                        let j0 = if j < i { j } else { j + 1 };
                        assert(s[j] == old_entries[j0]);
                    }
                    assert forall|a: int, b: int| 0 <= a < b < s.len() implies entry_ids(s)[a]
                        < entry_ids(s)[b] by {
                        let a0 = if a < i { a } else { a + 1 };
                        let b0 = if b < i { b } else { b + 1 };
                        assert(s[a] == old_entries[a0]);
                        assert(s[b] == old_entries[b0]);
                        assert(entry_ids(old_entries)[a0] < entry_ids(old_entries)[b0]);
                    }
                    lemma_entries_map(s);
                    assert(entries_map(s) =~= entries_map(old_entries).remove(agent_id)) by {
                        assert forall|k: u64| #[trigger] entries_map(s).contains_key(k)
                            == entries_map(old_entries).remove(agent_id).contains_key(k) by {
                            if entries_map(s).contains_key(k) {
                                let j = choose|j: int| 0 <= j < s.len() && (#[trigger] s[j]).0 == k;
                                let j0 = if j < i { j } else { j + 1 };
                                assert(s[j] == old_entries[j0]);
                                assert(entry_ids(old_entries)[j0] != entry_ids(old_entries)[i as int]);
                            }
                            if entries_map(old_entries).remove(agent_id).contains_key(k) {
                                let j = choose|j: int| 0 <= j < old_entries.len() && (
                                #[trigger] old_entries[j]).0 == k;
                                assert(j != i);
                                let j1 = if j < i { j } else { j - 1 };
                                assert(s[j1] == old_entries[j]);
                            }
                        }
                        assert forall|k: u64| #[trigger] entries_map(s).contains_key(k)
                            implies entries_map(s)[k] == entries_map(old_entries)[k] by {
                            let j = choose|j: int| 0 <= j < s.len() && (#[trigger] s[j]).0 == k;
                            let j0 = if j < i { j } else { j + 1 };
                            assert(s[j] == old_entries[j0]);
                        }
                    }
                }
                self.entries = entries;
                true
            },
        }
    }

    /// Closes the registry to spawns and removes every run; gives back the
    /// removed ids in increasing order. Cancelling and awaiting their tasks
    /// is the caller's part.
    pub fn abort_all_and_clear(&mut self) -> (r: Vec<u64>)
        ensures
            final(self)@ == abort_all_step(old(self)@),
            strictly_increasing(r@),
            forall|id: u64| #[trigger] r@.contains(id) <==> old(self)@.states.contains_key(id),
    {
        proof {
            use_type_invariant(&*self);
        }
        self.accepting_spawns = false;
        let ids = self.all_agent_ids();
        self.entries = Vec::new();
        proof {
            assert(entries_map(self.entries@) =~= Map::<u64, SnapshotView>::empty());
        }
        ids
    }
}


impl WaitAnyOutcome {
    /// The outcome of a wait for any that ran out of time: every listed id
    /// is still pending.
    pub fn timed_out(ids: &[u64]) -> (r: Self)
        ensures
            r matches WaitAnyOutcome::Timeout { pending } && pending@ == ids@,
    {
        WaitAnyOutcome::Timeout { pending: vstd::slice::slice_to_vec(ids) }
    }
}

impl SubagentRegistry {
    /// One look at the runs listed in `ids`, in order, as a wait for any one
    /// of them takes it: the first id that is not registered refuses the
    /// wait, and the first whose run is terminal ends it with a copy of its
    /// snapshot. `Ok(None)` means that all are registered and running: the
    /// caller waits for a change and looks again, or reports
    /// [`WaitAnyOutcome::timed_out`] once its deadline has passed.
    pub fn poll_any(&self, ids: &[u64]) -> (r: Result<Option<WaitAnyOutcome>, SubagentNotFound>)
        ensures
            match r {
                Err(e) => any_scan_from(self@.states, ids@, 0) == Err::<Option<u64>, u64>(e.0),
                Ok(None) => any_scan_from(self@.states, ids@, 0) == Ok::<Option<u64>, u64>(None),
                Ok(Some(o)) => match o {
                    WaitAnyOutcome::Ready { agent_id, snapshot } => {
                        &&& any_scan_from(self@.states, ids@, 0) == Ok::<Option<u64>, u64>(
                            Some(agent_id),
                        )
                        &&& snapshot@ == self@.states[agent_id]
                    },
                    WaitAnyOutcome::Timeout { .. } => false,
                },
            },
    {
        let mut i: usize = 0;
        while i < ids.len()
            invariant
                i <= ids@.len(),
                any_scan_from(self@.states, ids@, 0) == any_scan_from(self@.states, ids@, i as int),
            decreases ids.len() - i,
        {
            let id = ids[i];
            match self.snapshot(id) {
                None => {
                    return Err(SubagentNotFound(id));
                },
                Some(snap) => {
                    if snap.is_ready() {
                        return Ok(
                            Some(WaitAnyOutcome::Ready { agent_id: id, snapshot: copy_snapshot(snap) }),
                        );
                    }
                },
            }
            i += 1;
        }
        Ok(None)
    }

    /// One look at the runs listed in `ids`, in order, as a wait for all of
    /// them takes it: the first id that is not registered refuses the wait;
    /// when every run is terminal (at once when `ids` is empty) the wait
    /// ends with a copy of each snapshot; otherwise the ready and pending
    /// ids are reported, which the caller returns once its deadline has
    /// passed and otherwise looks again after a change.
    pub fn poll_all(&self, ids: &[u64]) -> (r: Result<WaitAllOutcome, SubagentNotFound>)
        ensures
            match r {
                Err(e) => first_absent(self@.states, ids@) == Some(e.0),
                Ok(o) => {
                    &&& first_absent(self@.states, ids@) is None
                    &&& match o {
                        WaitAllOutcome::Ready { results } => {
                            &&& pending_of(self@.states, ids@).len() == 0
                            &&& results_view(results@) == ids@.map_values(
                                |id: u64| (id, self@.states[id]),
                            )
                        },
                        WaitAllOutcome::Timeout { ready, pending } => {
                            &&& pending_of(self@.states, ids@).len() > 0
                            &&& ready@ == ready_of(self@.states, ids@)
                            &&& pending@ == pending_of(self@.states, ids@)
                        },
                    }
                },
            },
    {
        let mut results: Vec<(u64, SubagentSnapshot)> = Vec::new();
        let mut ready: Vec<u64> = Vec::new();
        let mut pending: Vec<u64> = Vec::new();
        let mut i: usize = 0;
        while i < ids.len()
            invariant
                i <= ids@.len(),
                forall|j: int| 0 <= j < i ==> self@.states.contains_key(#[trigger] ids@[j]),
                results@.len() == i,
                results_view(results@) == ids@.take(i as int).map_values(
                    |id: u64| (id, self@.states[id]),
                ),
                ready@ == ready_of(self@.states, ids@.take(i as int)),
                pending@ == pending_of(self@.states, ids@.take(i as int)),
            decreases ids.len() - i,
        {
            let id = ids[i];
            proof {
                assert(ids@.take(i + 1).drop_last() =~= ids@.take(i as int));
                assert(ids@.take(i + 1).last() == id);
            }
            match self.snapshot(id) {
                None => {
                    proof {
                        lemma_first_absent_prefix(self@.states, ids@, i as int);
                    }
                    return Err(SubagentNotFound(id));
                },
                Some(snap) => {
                    if snap.is_ready() {
                        ready.push(id);
                    } else {
                        pending.push(id);
                    }
                    let ghost before = results@;
                    results.push((id, copy_snapshot(snap)));
                    proof {
                        assert(results@ =~= before.push(results@.last()));
                        assert(results_view(results@) =~= ids@.take(i + 1).map_values(
                            |id: u64| (id, self@.states[id]),
                        )) by {
                            assert forall|j: int| 0 <= j < i implies #[trigger] results_view(
                                results@,
                            )[j] == results_view(before)[j] by {
                                assert(results@[j] == before[j]);
                            }
                        }
                    }
                },
            }
            i += 1;
        }
        proof {
            assert(ids@.take(ids@.len() as int) =~= ids@);
            lemma_first_absent_prefix(self@.states, ids@, ids@.len() as int);
            assert(ids@.subrange(ids@.len() as int, ids@.len() as int) =~= Seq::<u64>::empty());
        }
        if pending.len() == 0 {
            Ok(WaitAllOutcome::Ready { results })
        } else {
            Ok(WaitAllOutcome::Timeout { ready, pending })
        }
    }
}

// ---------------------------------------------------------------------------
// Laws
// ---------------------------------------------------------------------------

/// Once the registry is closed by a cleanup, every spawn is refused until
/// the next turn begins; after that a spawn is registered again.
pub proof fn law_closed_until_next_turn(m: RegistryView)
    ensures
        spawn_step(abort_all_step(m)).1 is None,
        spawn_step(abort_all_step(m)).0 == abort_all_step(m),
        spawn_step(begin_turn_step(abort_all_step(m))).1 is Some,
{
}

/// A spawn hands out the id after the last one, which no registered run
/// has, and registers it as running; the registry stays well formed.
pub proof fn law_spawned_id_is_fresh(m: RegistryView)
    requires
        model_wf(m),
        m.accepting,
        m.next_id < u64::MAX,
    ensures
        spawn_step(m).1 == Some((m.next_id + 1) as u64),
        forall|id: u64| #[trigger] m.states.contains_key(id) ==> id < spawn_step(m).1->0,
        spawn_step(m).0.states[spawn_step(m).1->0] is Running,
        model_wf(spawn_step(m).0),
{
    let m2 = spawn_step(m).0;
    assert forall|id: u64| #[trigger] m2.states.contains_key(id) implies 1 <= id <= m2.next_id by {
        if id != m2.next_id {
            assert(m.states.contains_key(id));
        }
    }
}

/// No operation turns a terminal run back into a running one: recording an
/// outcome, aborting, closing, reopening and (on a well-formed registry)
/// spawning all keep every terminal run terminal or remove it.
pub proof fn law_terminal_never_regresses(m: RegistryView, id: u64, k: u64, o: SubagentRunOutcome)
    requires
        model_wf(m),
        m.next_id < u64::MAX,
        m.states.contains_key(k),
        is_ready_spec(m.states[k]),
    ensures
        complete_step(m, id, outcome_view(o)).states.contains_key(k) && is_ready_spec(
            complete_step(m, id, outcome_view(o)).states[k],
        ),
        abort_step(m, id).0.states.contains_key(k) ==> is_ready_spec(abort_step(m, id).0.states[k]),
        !abort_all_step(m).states.contains_key(k),
        begin_turn_step(m).states[k] == m.states[k],
        spawn_step(m).0.states[k] == m.states[k],
{
}

/// A run that was aborted stays removed: the outcome its task records
/// afterwards does not bring it back.
pub proof fn law_abort_is_final(m: RegistryView, id: u64, o: SubagentRunOutcome)
    ensures
        !abort_step(m, id).0.states.contains_key(id),
        complete_step(abort_step(m, id).0, id, outcome_view(o)) == abort_step(m, id).0,
{
}

} // verus!
