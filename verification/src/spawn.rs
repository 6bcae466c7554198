//! The decisions of the subagent tools: whether a spawn under a profile is
//! allowed and with which middleware, what a finished run reports, and how
//! the tools read their parameters.
use vstd::prelude::*;

use crate::message::{
    copy_messages, json_array_at, json_array_field, json_as_u64, json_bool_at, json_bool_field, json_u64_at,
    json_u64_field, json_u64_value, messages_view, AssistantContentBlock, Message, MessageType, MessageTypeView,
    MessageView, ToolError, ToolErrorView, Turn,
};
use crate::profile::{find_profile, ProfileCatalog, SubagentProfile};
use crate::registry::{
    snapshot_name, RunResultView, SubagentNotFound, SubagentRunOutcome, SubagentRunResult, SubagentSnapshot, outcome_view,
};
use crate::text::{push_decimal, push_str};

verus! {

broadcast use vstd::string::group_string_axioms;

/// A middleware of a parent agent, by name, with its configuration.
#[derive(Debug, Clone)]
pub struct MiddlewareSpec {
    pub name: String,
    pub config: serde_json::Value,
}

/// An equal copy of a middleware spec.
pub fn copy_spec(s: &MiddlewareSpec) -> (r: MiddlewareSpec)
    ensures
        r == *s,
{
    MiddlewareSpec { name: s.name.clone(), config: s.config.clone() }
}

/// The subagent middleware's configuration: how deep subagents may nest.
#[derive(Debug, Clone, Copy, PartialEq, Eq, Structural)]
pub struct SubagentConfig {
    pub max_depth: u32,
}

impl Default for SubagentConfig {
    /// No nesting: a first-level subagent cannot spawn.
    fn default() -> (r: Self)
        ensures
            r.max_depth == 0,
    {
        SubagentConfig { max_depth: 0 }
    }
}

/// What the spawn tool needs to know of the agent that calls it.
#[derive(Debug)]
pub struct SpawnContext {
    pub specs: Vec<MiddlewareSpec>,
    pub parent_working_directory: String,
    pub depth: u32,
    pub max_depth: u32,
    pub allow_nested: bool,
}

/// How a spawn that was allowed sets up its child.
#[derive(Debug)]
pub struct SpawnPlan {
    /// The parent's middleware that the profile asks for, in the parent's
    /// order.
    pub selected_specs: Vec<MiddlewareSpec>,
    pub working_directory: String,
    pub child_depth: u32,
    pub max_depth: u32,
    pub allow_nested: bool,
}

/// The first middleware of `wanted`, in order, that no spec of the parent
/// is named.
pub open spec fn first_missing(wanted: Seq<String>, specs: Seq<MiddlewareSpec>) -> Option<Seq<char>>
    decreases wanted.len(),
{
    if wanted.len() == 0 {
        None
    } else if !(exists|j: int| 0 <= j < specs.len() && (#[trigger] specs[j]).name@ == wanted[0]@) {
        Some(wanted[0]@)
    } else {
        first_missing(wanted.drop_first(), specs)
    }
}

/// The parent's specs whose names `wanted` holds, in the parent's order.
pub open spec fn selected_specs(specs: Seq<MiddlewareSpec>, wanted: Seq<String>) -> Seq<MiddlewareSpec>
    decreases specs.len(),
{
    if specs.len() == 0 {
        Seq::empty()
    } else if exists|j: int| 0 <= j < wanted.len() && (#[trigger] wanted[j])@ == specs.last().name@ {
        selected_specs(specs.drop_last(), wanted).push(specs.last())
    } else {
        selected_specs(specs.drop_last(), wanted)
    }
}

/// The message of a spawn whose profile asks for middleware that the
/// parent did not enable.
pub open spec fn missing_message(profile: Seq<char>, m: Seq<char>) -> Seq<char> {
    "profile '"@ + profile + "' requests middleware '"@ + m + "', not enabled by parent"@
}

/// The decision on a spawn under the profile `name`: an unknown profile is
/// an invalid parameter; then a parent that may not nest, a child beyond
/// the depth limit, and a profile asking for middleware the parent lacks
/// are refused, in that order.
pub open spec fn spawn_refusal(
    profiles: Seq<SubagentProfile>,
    name: Seq<char>,
    ctx_allow_nested: bool,
    depth: u32,
    max_depth: u32,
    specs: Seq<MiddlewareSpec>,
) -> Option<ToolErrorView> {
    match find_profile(profiles, name) {
        None => Some(ToolErrorView::InvalidParameters("profile '"@ + name + "' not found"@)),
        Some(p) => if !ctx_allow_nested {
            Some(ToolErrorView::ExecutionError("parent profile does not allow nested subagents"@))
        } else if depth + 1 > max_depth {
            Some(ToolErrorView::ExecutionError("max subagent nesting depth exceeded"@))
        } else {
            match first_missing(p.middlewares@, specs) {
                Some(m) => Some(ToolErrorView::ExecutionError(missing_message(name, m))),
                None => None,
            }
        },
    }
}

/// Whether some spec is called `name`.
fn has_spec(specs: &Vec<MiddlewareSpec>, name: &str) -> (r: bool)
    ensures
        r == exists|j: int| 0 <= j < specs@.len() && (#[trigger] specs@[j]).name@ == name@,
{
    for i in 0..specs.len()
        invariant
            forall|j: int| 0 <= j < i ==> (#[trigger] specs@[j]).name@ != name@,
    {
        if crate::text::str_equal(specs[i].name.as_str(), name) {
            return true;
        }
    }
    false
}

/// Whether some entry of `wanted` is `name`.
fn wants(wanted: &Vec<String>, name: &str) -> (r: bool)
    ensures
        r == exists|j: int| 0 <= j < wanted@.len() && (#[trigger] wanted@[j])@ == name@,
{
    for i in 0..wanted.len()
        invariant
            forall|j: int| 0 <= j < i ==> (#[trigger] wanted@[j])@ != name@,
    {
        if crate::text::str_equal(wanted[i].as_str(), name) {
            return true;
        }
    }
    false
}

/// Decides a spawn under the profile `profile_name` and, when it is
/// allowed, how the child is set up: the parent's middleware that the
/// profile names, the profile's working directory or else the parent's, one
/// level deeper, under the same depth limit, nesting as the profile says.
pub fn plan_spawn(catalog: &ProfileCatalog, profile_name: &str, ctx: &SpawnContext) -> (r: Result<
    SpawnPlan,
    ToolError,
>)
    requires
        ctx.depth < u32::MAX,
    ensures
        match r {
            Err(e) => spawn_refusal(
                catalog.profiles@,
                profile_name@,
                ctx.allow_nested,
                ctx.depth,
                ctx.max_depth,
                ctx.specs@,
            ) == Some(e@),
            Ok(plan) => {
                let p = find_profile(catalog.profiles@, profile_name@)->0;
                &&& spawn_refusal(
                    catalog.profiles@,
                    profile_name@,
                    ctx.allow_nested,
                    ctx.depth,
                    ctx.max_depth,
                    ctx.specs@,
                ) is None
                &&& plan.selected_specs@ == selected_specs(ctx.specs@, p.middlewares@)
                &&& plan.working_directory@ == match p.working_directory {
                    Some(w) => w@,
                    None => ctx.parent_working_directory@,
                }
                &&& plan.child_depth == ctx.depth + 1
                &&& plan.max_depth == ctx.max_depth
                &&& plan.allow_nested == p.allow_nested
            },
        },
{
    let profile = match catalog.get(profile_name) {
        Ok(p) => p,
        Err(e) => {
            proof {
                crate::profile::lemma_get_none(catalog.profiles@, profile_name@);
            }
            return Err(ToolError::InvalidParameters(e.message()));
        },
    };
    proof {
        crate::profile::lemma_get_some(catalog.profiles@, profile_name@);
    }
    if !ctx.allow_nested {
        let mut m = String::new();
        push_str(&mut m, "parent profile does not allow nested subagents");
        return Err(ToolError::ExecutionError(m));
    }
    if ctx.depth + 1 > ctx.max_depth {
        let mut m = String::new();
        push_str(&mut m, "max subagent nesting depth exceeded");
        return Err(ToolError::ExecutionError(m));
    }
    let wanted = &profile.middlewares;
    assert(wanted@.skip(0) =~= wanted@);
    for i in 0..wanted.len()
        invariant
            find_profile(catalog.profiles@, profile_name@) == Some(*profile),
            wanted@ == profile.middlewares@,
            ctx.allow_nested,
            ctx.depth + 1 <= ctx.max_depth,
            first_missing(wanted@, ctx.specs@) == first_missing(wanted@.skip(i as int), ctx.specs@),
    {
        proof {
            assert(wanted@.skip(i as int).drop_first() =~= wanted@.skip(i + 1));
            assert(wanted@.skip(i as int)[0] == wanted@[i as int]);
        }
        if !has_spec(&ctx.specs, wanted[i].as_str()) {
            let mut m = String::new();
            push_str(&mut m, "profile '");
            push_str(&mut m, profile_name);
            push_str(&mut m, "' requests middleware '");
            push_str(&mut m, wanted[i].as_str());
            push_str(&mut m, "', not enabled by parent");
            return Err(ToolError::ExecutionError(m));
        }
    }
    assert(wanted@.skip(wanted@.len() as int) =~= Seq::<String>::empty());
    let mut selected: Vec<MiddlewareSpec> = Vec::new();
    for i in 0..ctx.specs.len()
        invariant
            selected@ == selected_specs(ctx.specs@.take(i as int), wanted@),
    {
        proof {
            assert(ctx.specs@.take(i + 1).drop_last() =~= ctx.specs@.take(i as int));
            assert(ctx.specs@.take(i + 1).last() == ctx.specs@[i as int]);
        }
        if wants(wanted, ctx.specs[i].name.as_str()) {
            selected.push(copy_spec(&ctx.specs[i]));
        }
    }
    assert(ctx.specs@.take(ctx.specs@.len() as int) =~= ctx.specs@);
    let working_directory = match &profile.working_directory {
        Some(w) => w.clone(),
        None => ctx.parent_working_directory.clone(),
    };
    Ok(
        SpawnPlan {
            selected_specs: selected,
            working_directory,
            child_depth: ctx.depth + 1,
            max_depth: ctx.max_depth,
            allow_nested: profile.allow_nested,
        },
    )
}

/// The outcome recorded for a subagent's run: its turn when the run
/// completed, or an error with the partial turn when it failed.
pub open spec fn run_outcome_spec(result: Result<Turn, Turn>) -> crate::registry::SnapshotView {
    match result {
        Ok(t) => crate::registry::SnapshotView::Finished(
            RunResultView { usage: t@.usage, messages: t@.messages, finished: t@.finished },
        ),
        Err(t) => crate::registry::SnapshotView::Error(
            "subagent run_loop failed"@,
            RunResultView { usage: t@.usage, messages: t@.messages, finished: t@.finished },
        ),
    }
}

/// The outcome recorded for a subagent's run.
pub fn run_outcome(result: Result<Turn, Turn>) -> (r: SubagentRunOutcome)
    ensures
        outcome_view(r) == run_outcome_spec(result),
{
    match result {
        Ok(turn) => SubagentRunOutcome::Finished(SubagentRunResult::from_turn(turn)),
        Err(partial) => {
            let mut e = String::new();
            push_str(&mut e, "subagent run_loop failed");
            SubagentRunOutcome::Error { error: e, partial: SubagentRunResult::from_turn(partial) }
        },
    }
}

/// The texts of the text blocks of an assistant message, one per line, or
/// none when it has no text block.
pub open spec fn assistant_text(bs: Seq<AssistantContentBlock>) -> Option<Seq<char>>
    decreases bs.len(),
{
    if bs.len() == 0 {
        None
    } else {
        match bs.last() {
            AssistantContentBlock::Text { content, .. } => match assistant_text(bs.drop_last()) {
                Some(t) => Some(t + "\n"@ + content@),
                None => Some(content@),
            },
            _ => assistant_text(bs.drop_last()),
        }
    }
}

/// The position of the last assistant message of `ms`, if any.
pub open spec fn last_assistant(ms: Seq<Message>) -> Option<int>
    decreases ms.len(),
{
    if ms.len() == 0 {
        None
    } else if ms.last().data is Assistant {
        Some(ms.len() - 1)
    } else {
        last_assistant(ms.drop_last())
    }
}

/// What reading a finished run gives as its text: the text of its last
/// assistant message.
pub open spec fn last_assistant_text_spec(ms: Seq<Message>) -> Option<Seq<char>> {
    match last_assistant(ms) {
        Some(i) => match ms[i].data {
            MessageType::Assistant(a) => assistant_text(a.blocks@),
            _ => None,
        },
        None => None,
    }
}

proof fn lemma_last_assistant(ms: Seq<Message>, i: int)
    requires
        0 <= i <= ms.len(),
        forall|j: int| i <= j < ms.len() ==> !((#[trigger] ms[j]).data is Assistant),
    ensures
        last_assistant(ms) == last_assistant(ms.take(i)),
    decreases ms.len() - i,
{
    if i < ms.len() {
        assert(ms.drop_last().take(i) =~= ms.take(i));
        assert(ms.last() == ms[ms.len() - 1]);
        assert forall|j: int| i <= j < ms.drop_last().len() implies !((
        #[trigger] ms.drop_last()[j]).data is Assistant) by {
            assert(ms.drop_last()[j] == ms[j]);
        }
        lemma_last_assistant(ms.drop_last(), i);
    } else {
        assert(ms.take(i) =~= ms);
    }
}

/// The text of the last assistant message of a finished run.
pub fn last_assistant_text(messages: &Vec<Message>) -> (r: Option<String>)
    ensures
        match r {
            Some(s) => last_assistant_text_spec(messages@) == Some(s@),
            None => last_assistant_text_spec(messages@) is None,
        },
{
    let mut i = messages.len();
    while i > 0
        invariant
            i <= messages@.len(),
            forall|j: int| i <= j < messages@.len() ==> !((#[trigger] messages@[j]).data is Assistant),
        decreases i,
    {
        match &messages[i - 1].data {
            MessageType::Assistant(a) => {
                proof {
                    lemma_last_assistant(messages@, i as int);
                    assert(messages@.take(i as int).last() == messages@[i - 1]);
                }
                let bs = &a.blocks;
                let mut text = String::new();
                let mut any = false;
                for k in 0..bs.len()
                    invariant
                        any == (assistant_text(bs@.take(k as int)) is Some),
                        any ==> text@ == assistant_text(bs@.take(k as int))->0,
                        !any ==> text@.len() == 0,
                {
                    proof {
                        assert(bs@.take(k + 1).drop_last() =~= bs@.take(k as int));
                        assert(bs@.take(k + 1).last() == bs@[k as int]);
                    }
                    match &bs[k] {
                        AssistantContentBlock::Text { content, .. } => {
                            let ghost before = text@;
                            if any {
                                push_str(&mut text, "\n");
                            }
                            push_str(&mut text, content.as_str());
                            proof {
                                if !any {
                                    assert(text@ =~= before + content@);
                                }
                            }
                            any = true;
                        },
                        _ => {},
                    }
                }
                assert(bs@.take(bs@.len() as int) =~= bs@);
                if any {
                    return Some(text);
                } else {
                    return None;
                }
            },
            _ => {},
        }
        i -= 1;
    }
    proof {
        lemma_last_assistant(messages@, 0);
    }
    None
}


/// The `agent_id` parameter of a subagent tool.
pub fn parse_agent_id(params: &serde_json::Value) -> (r: Result<u64, ToolError>)
    ensures
        match r {
            Ok(id) => json_u64_at(*params, "agent_id"@) == Some(id),
            Err(e) => json_u64_at(*params, "agent_id"@) is None && e@ == ToolErrorView::InvalidParameters(
                "Missing or invalid 'agent_id' parameter"@,
            ),
        },
{
    match json_u64_field(params, "agent_id") {
        Some(id) => Ok(id),
        None => {
            let mut m = String::new();
            push_str(&mut m, "Missing or invalid 'agent_id' parameter");
            Err(ToolError::InvalidParameters(m))
        },
    }
}

/// What the `agent_ids` parameter comes to: a non-empty array of unsigned
/// integers, read in order.
pub open spec fn agent_ids_spec(params: serde_json::Value) -> Result<Seq<u64>, ToolErrorView> {
    match json_array_at(params, "agent_ids"@) {
        None => Err(ToolErrorView::InvalidParameters("Missing 'agent_ids' array parameter"@)),
        Some(a) => if a.len() == 0 {
            Err(ToolErrorView::InvalidParameters("'agent_ids' must be a non-empty array"@))
        } else if exists|i: int| 0 <= i < a.len() && json_as_u64(#[trigger] a[i]) is None {
            Err(ToolErrorView::InvalidParameters("'agent_ids' must contain integers"@))
        } else {
            Ok(a.map_values(|v: serde_json::Value| json_as_u64(v)->0))
        },
    }
}

/// The `agent_ids` parameter of a subagent tool.
pub fn parse_agent_ids(params: &serde_json::Value) -> (r: Result<Vec<u64>, ToolError>)
    ensures
        match r {
            Ok(ids) => agent_ids_spec(*params) == Ok::<Seq<u64>, ToolErrorView>(ids@),
            Err(e) => agent_ids_spec(*params) == Err::<Seq<u64>, ToolErrorView>(e@),
        },
{
    let arr = match json_array_field(params, "agent_ids") {
        Some(a) => a,
        None => {
            let mut m = String::new();
            push_str(&mut m, "Missing 'agent_ids' array parameter");
            return Err(ToolError::InvalidParameters(m));
        },
    };
    if arr.len() == 0 {
        let mut m = String::new();
        push_str(&mut m, "'agent_ids' must be a non-empty array");
        return Err(ToolError::InvalidParameters(m));
    }
    let mut ids: Vec<u64> = Vec::new();
    for i in 0..arr.len()
        invariant
            json_array_at(*params, "agent_ids"@) == Some(arr@),
            arr@.len() > 0,
            ids@.len() == i,
            forall|j: int| 0 <= j < i ==> json_as_u64(#[trigger] arr@[j]) == Some(ids@[j]),
    {
        match json_u64_value(&arr[i]) {
            Some(n) => ids.push(n),
            None => {
                assert(json_as_u64(arr@[i as int]) is None);
                let mut m = String::new();
                push_str(&mut m, "'agent_ids' must contain integers");
                return Err(ToolError::InvalidParameters(m));
            },
        }
    }
    assert(ids@ =~= arr@.map_values(|v: serde_json::Value| json_as_u64(v)->0));
    Ok(ids)
}

/// What an optional `agent_ids` parameter comes to: absent (`None`), or an
/// array of unsigned integers, possibly empty, read in order.
pub open spec fn optional_agent_ids_spec(params: serde_json::Value) -> Result<Option<Seq<u64>>, ToolErrorView> {
    match json_array_at(params, "agent_ids"@) {
        None => Ok(None),
        Some(a) => if exists|i: int| 0 <= i < a.len() && json_as_u64(#[trigger] a[i]) is None {
            Err(ToolErrorView::InvalidParameters("'agent_ids' must contain integers"@))
        } else {
            Ok(Some(a.map_values(|v: serde_json::Value| json_as_u64(v)->0)))
        },
    }
}

/// The optional `agent_ids` parameter of `wait_all_subagents`; when it is
/// absent the caller waits on every running subagent.
pub fn parse_optional_agent_ids(params: &serde_json::Value) -> (r: Result<Option<Vec<u64>>, ToolError>)
    ensures
        match r {
            Ok(Some(ids)) => optional_agent_ids_spec(*params) == Ok::<Option<Seq<u64>>, ToolErrorView>(Some(ids@)),
            Ok(None) => optional_agent_ids_spec(*params) == Ok::<Option<Seq<u64>>, ToolErrorView>(None),
            Err(e) => optional_agent_ids_spec(*params) == Err::<Option<Seq<u64>>, ToolErrorView>(e@),
        },
{
    let arr = match json_array_field(params, "agent_ids") {
        Some(a) => a,
        None => return Ok(None),
    };
    let mut ids: Vec<u64> = Vec::new();
    for i in 0..arr.len()
        invariant
            json_array_at(*params, "agent_ids"@) == Some(arr@),
            ids@.len() == i,
            forall|j: int| 0 <= j < i ==> json_as_u64(#[trigger] arr@[j]) == Some(ids@[j]),
    {
        match json_u64_value(&arr[i]) {
            Some(n) => ids.push(n),
            None => {
                assert(json_as_u64(arr@[i as int]) is None);
                let mut m = String::new();
                push_str(&mut m, "'agent_ids' must contain integers");
                return Err(ToolError::InvalidParameters(m));
            },
        }
    }
    assert(ids@ =~= arr@.map_values(|v: serde_json::Value| json_as_u64(v)->0));
    Ok(Some(ids))
}

/// The parameters of `read_subagent`: the subagent's id, and whether only
/// the final text is wanted (`text_only`, true unless it is given as false).
pub fn read_params(params: &serde_json::Value) -> (r: Result<(u64, bool), ToolError>)
    ensures
        match r {
            Ok((id, t)) => json_u64_at(*params, "agent_id"@) == Some(id) && t == match json_bool_at(
                *params,
                "text_only"@,
            ) {
                Some(b) => b,
                None => true,
            },
            Err(e) => json_u64_at(*params, "agent_id"@) is None && e@ == ToolErrorView::InvalidParameters(
                "Missing or invalid 'agent_id' parameter"@,
            ),
        },
{
    let agent_id = parse_agent_id(params)?;
    proof {
        reveal_strlit("text_only");
    }
    let text_only = match json_bool_field(params, "text_only") {
        Some(b) => b,
        None => true,
    };
    Ok((agent_id, text_only))
}

/// What `read_subagent` gives of a ready run.
#[derive(Debug)]
pub enum SubagentRead {
    /// The text of the run's last assistant message, empty when it has none.
    Text { status: &'static str, text: String },
    /// Every message of the run.
    Messages { status: &'static str, messages: Vec<Message> },
}

/// The complete or partial result of a snapshot, if it is terminal.
pub open spec fn snapshot_result(s: SubagentSnapshot) -> Option<SubagentRunResult> {
    match s {
        SubagentSnapshot::Running => None,
        SubagentSnapshot::Finished(r) => Some(r),
        SubagentSnapshot::Error { partial, .. } => Some(partial),
    }
}

/// Reading subagent `agent_id`, whose snapshot in the registry is
/// `snapshot` (`None` when the registry has no such subagent): an unknown
/// subagent and a running one are refused; a terminal one gives its final
/// text, or with `text_only` false all its messages, with its state's name.
pub fn read_snapshot(agent_id: u64, text_only: bool, snapshot: Option<&SubagentSnapshot>) -> (r: Result<
    SubagentRead,
    ToolError,
>)
    ensures
        match snapshot {
            None => r is Err && r->Err_0@ == ToolErrorView::ExecutionError(
                "agent "@ + crate::text::decimal_string(agent_id as nat) + " not found"@,
            ),
            Some(s) => match snapshot_result(*s) {
                None => r is Err && r->Err_0@ == ToolErrorView::ExecutionError(
                    "agent "@ + crate::text::decimal_string(agent_id as nat) + " is not ready (state: running)"@,
                ),
                Some(res) => if text_only {
                    r matches Ok(SubagentRead::Text { status, text }) && status@ == snapshot_name(s@) && text@
                        == match last_assistant_text_spec(res.messages@) {
                        Some(t) => t,
                        None => Seq::<char>::empty(),
                    }
                } else {
                    r matches Ok(SubagentRead::Messages { status, messages }) && status@ == snapshot_name(s@)
                        && messages_view(messages@) == messages_view(res.messages@)
                },
            },
        },
{
    let s = match snapshot {
        None => return Err(ToolError::ExecutionError(SubagentNotFound(agent_id).message())),
        Some(s) => s,
    };
    let result = match s {
        SubagentSnapshot::Running => {
            let mut m = String::new();
            push_str(&mut m, "agent ");
            push_decimal(&mut m, agent_id);
            push_str(&mut m, " is not ready (state: ");
            push_str(&mut m, s.name());
            push_str(&mut m, ")");
            proof {
                reveal_strlit("running");
                reveal_strlit("agent ");
                reveal_strlit(" is not ready (state: ");
                reveal_strlit(")");
                reveal_strlit(" is not ready (state: running)");
                assert(m@ =~= "agent "@ + crate::text::decimal_string(agent_id as nat)
                    + " is not ready (state: running)"@);
            }
            return Err(ToolError::ExecutionError(m));
        },
        SubagentSnapshot::Finished(res) => res,
        SubagentSnapshot::Error { partial, .. } => partial,
    };
    if text_only {
        let text = match last_assistant_text(&result.messages) {
            Some(t) => t,
            None => String::new(),
        };
        Ok(SubagentRead::Text { status: s.name(), text })
    } else {
        Ok(SubagentRead::Messages { status: s.name(), messages: copy_messages(&result.messages) })
    }
}

} // verus!
