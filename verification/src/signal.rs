//! Signals that the conversation watcher feeds to state inference, and the
//! content gate it applies before claiming a session.

use vstd::prelude::*;
use crate::text::str_eq;
use crate::tty::views;

verus! {

/// A signal for state inference.
#[derive(Debug, Clone, PartialEq, Eq)]
pub enum StateSignal {
    /// A conversation entry: its type ("user", "assistant", "system", ...),
    /// subtype, stop reason and the tools it used.
    ConversationEntry {
        entry_type: String,
        subtype: Option<String>,
        stop_reason: Option<String>,
        tool_names: Vec<String>,
    },
    /// Terminal output seen on the instance.
    TerminalOutput { data: String },
}

/// A signal sent to a process driver.
#[derive(Debug, Clone, PartialEq, Eq)]
pub enum DriverSignal {
    /// A conversation entry, with the same fields as the state signal.
    ConversationEntry {
        entry_type: String,
        subtype: Option<String>,
        stop_reason: Option<String>,
        tool_names: Vec<String>,
    },
    /// The session of the instance was found.
    SessionDiscovered(String),
}

/// An assistant entry with no subtype that used no tool.
pub open spec fn text_only_entry(entry_type: Seq<char>, subtype: Option<String>, tool_names: Seq<String>) -> bool {
    entry_type == "assistant"@ && subtype is None && tool_names.len() == 0
}

/// Whether the entry fields describe a text-only assistant entry.
fn text_only_fields(entry_type: &String, subtype: &Option<String>, tool_names: &Vec<String>) -> (res: bool)
    ensures
        res == text_only_entry(entry_type@, *subtype, tool_names@),
{
    str_eq(entry_type.as_str(), "assistant") && subtype.is_none() && tool_names.len() == 0
}

/// Whether `signal` is a text-only assistant entry (no tool uses, no
/// subtype). Such entries may be explanatory text in the middle of a turn.
pub fn is_text_only_assistant(signal: &StateSignal) -> (res: bool)
    ensures
        res == match *signal {
            StateSignal::ConversationEntry { entry_type, subtype, tool_names, .. } => text_only_entry(
                entry_type@,
                subtype,
                tool_names@,
            ),
            StateSignal::TerminalOutput { .. } => false,
        },
{
    match signal {
        StateSignal::ConversationEntry { entry_type, subtype, tool_names, .. } => text_only_fields(
            entry_type,
            subtype,
            tool_names,
        ),
        StateSignal::TerminalOutput { .. } => false,
    }
}

/// The driver-signal form of `is_text_only_assistant`.
pub fn is_text_only_driver_signal(signal: &DriverSignal) -> (res: bool)
    ensures
        res == match *signal {
            DriverSignal::ConversationEntry { entry_type, subtype, tool_names, .. } => text_only_entry(
                entry_type@,
                subtype,
                tool_names@,
            ),
            DriverSignal::SessionDiscovered(_) => false,
        },
{
    match signal {
        DriverSignal::ConversationEntry { entry_type, subtype, tool_names, .. } => text_only_fields(
            entry_type,
            subtype,
            tool_names,
        ),
        DriverSignal::SessionDiscovered(_) => false,
    }
}

/// `content_matches` answered `r` when asked about a prefix with text `p`
/// and the candidate text `t`.
pub open spec fn answered<F: Fn(&str, &str) -> bool>(content_matches: F, p: Seq<char>, t: &str, r: bool) -> bool {
    exists|q: &str| q@ == p && #[trigger] call_ensures(content_matches, (q, t), r)
}

/// Whether a session may be claimed automatically. With no content
/// prefixes, or no user turns in the candidate yet, the timestamp gate
/// suffices; otherwise some user text must match some prefix by
/// `content_matches(prefix, text)`.
pub fn should_auto_claim<F: Fn(&str, &str) -> bool>(
    content_prefixes: &[String],
    candidate_user_texts: &[&str],
    content_matches: F,
) -> (res: bool)
    requires
        forall|p: &str, t: &str| #[trigger] call_requires(content_matches, (p, t)),
    ensures
        content_prefixes@.len() == 0 ==> res,
        candidate_user_texts@.len() == 0 ==> res,
        content_prefixes@.len() > 0 && candidate_user_texts@.len() > 0 && res ==> exists|i: int, j: int|
            0 <= i < candidate_user_texts@.len() && 0 <= j < content_prefixes@.len() && #[trigger] answered(
                content_matches,
                content_prefixes@[j]@,
                candidate_user_texts@[i],
                true,
            ),
        content_prefixes@.len() > 0 && candidate_user_texts@.len() > 0 && !res ==> forall|i: int, j: int|
            0 <= i < candidate_user_texts@.len() && 0 <= j < content_prefixes@.len() ==> #[trigger] answered(
                content_matches,
                content_prefixes@[j]@,
                candidate_user_texts@[i],
                false,
            ),
{
    if content_prefixes.len() == 0 {
        return true;
    }
    if candidate_user_texts.len() == 0 {
        return true;
    }
    let mut i: usize = 0;
    while i < candidate_user_texts.len()
        invariant
            0 <= i <= candidate_user_texts@.len(),
            content_prefixes@.len() > 0,
            forall|p: &str, t: &str| #[trigger] call_requires(content_matches, (p, t)),
            forall|a: int, b: int|
                0 <= a < i && 0 <= b < content_prefixes@.len() ==> #[trigger] answered(
                    content_matches,
                    content_prefixes@[b]@,
                    candidate_user_texts@[a],
                    false,
                ),
        decreases candidate_user_texts@.len() - i,
    {
        let text: &str = candidate_user_texts[i];
        let mut j: usize = 0;
        while j < content_prefixes.len()
            invariant
                0 <= i < candidate_user_texts@.len(),
                0 <= j <= content_prefixes@.len(),
                text == candidate_user_texts@[i as int],
                forall|p: &str, t: &str| #[trigger] call_requires(content_matches, (p, t)),
                forall|a: int, b: int|
                    0 <= a < i && 0 <= b < content_prefixes@.len() ==> #[trigger] answered(
                        content_matches,
                        content_prefixes@[b]@,
                        candidate_user_texts@[a],
                        false,
                    ),
                forall|b: int|
                    0 <= b < j ==> #[trigger] answered(
                        content_matches,
                        content_prefixes@[b]@,
                        candidate_user_texts@[i as int],
                        false,
                    ),
            decreases content_prefixes@.len() - j,
        {
            let prefix: &str = content_prefixes[j].as_str();
            let m = content_matches(prefix, text);
            assert(call_ensures(content_matches, (prefix, text), m));
            if m {
                assert(answered(content_matches, content_prefixes@[j as int]@, candidate_user_texts@[i as int], true));
                return true;
            }
            assert(answered(content_matches, content_prefixes@[j as int]@, candidate_user_texts@[i as int], false));
            j = j + 1;
        }
        i = i + 1;
    }
    false
}

/// The role of a conversation turn.
#[derive(Debug, Clone, PartialEq, Eq)]
pub enum Role {
    User,
    Assistant,
    System,
    Other(String),
}

/// What the watcher reads of a conversation turn: its role, the `subtype`
/// of its extra data when that is a string, its stop reason, and the names
/// of the tools it used, in order.
#[derive(Debug, Clone, PartialEq, Eq)]
pub struct TurnSummary {
    pub role: Role,
    pub subtype: Option<String>,
    pub stop_reason: Option<String>,
    pub tool_names: Vec<String>,
}

/// What a conversation log poll reports.
#[derive(Debug, Clone, PartialEq, Eq)]
pub enum WatcherEvent {
    /// A new turn.
    Turn(TurnSummary),
    /// A turn that tool results were merged into.
    TurnUpdated(TurnSummary),
    /// A metadata entry of kind `kind`, with the `subtype` of its data when
    /// that is a string.
    Progress { kind: String, subtype: Option<String> },
}

/// The entry type a role maps to.
pub open spec fn role_name(r: Role) -> Seq<char> {
    match r {
        Role::User => "user"@,
        Role::Assistant => "assistant"@,
        Role::System => "system"@,
        Role::Other(s) => s@,
    }
}

/// A tool that asks the user something, so that its result is the user's
/// answer.
pub open spec fn interactive_tool(name: Seq<char>) -> bool {
    name == "AskUserQuestion"@ || name == "EnterPlanMode"@ || name == "ExitPlanMode"@
}

/// The view of an optional string.
pub open spec fn opt_view(o: Option<String>) -> Option<Seq<char>> {
    match o {
        Some(s) => Some(s@),
        None => None,
    }
}

/// The fields of the conversation-entry signal for an event: entry type,
/// subtype, stop reason and tool names. A turn gives its role's name and
/// its subtype; an assistant turn with no stop reason and no tool use is
/// taken to have ended (`end_turn`), one with tool uses keeps no stop
/// reason, and only assistant turns report their tools. A
/// merged turn is the user's answer when it used an interactive tool and a
/// tool result otherwise. A metadata entry gives its kind and subtype.
pub open spec fn entry_of(e: WatcherEvent) -> (Seq<char>, Option<Seq<char>>, Option<Seq<char>>, Seq<Seq<char>>) {
    match e {
        WatcherEvent::Turn(t) => (
            role_name(t.role),
            opt_view(t.subtype),
            match t.stop_reason {
                Some(r) => Some(r@),
                None => if t.role is Assistant && t.tool_names@.len() == 0 {
                    Some("end_turn"@)
                } else {
                    None
                },
            },
            if t.role is Assistant {
                views(t.tool_names@)
            } else {
                Seq::empty()
            },
        ),
        WatcherEvent::TurnUpdated(t) => (
            if exists|i: int| 0 <= i < t.tool_names@.len() && interactive_tool(#[trigger] t.tool_names@[i]@) {
                "user"@
            } else {
                "tool_result"@
            },
            None,
            None,
            Seq::empty(),
        ),
        WatcherEvent::Progress { kind, subtype } => (kind@, opt_view(subtype), None, Seq::empty()),
    }
}

/// The fields of a conversation-entry signal.
pub open spec fn state_entry(s: StateSignal) -> Option<(Seq<char>, Option<Seq<char>>, Option<Seq<char>>, Seq<Seq<char>>)> {
    match s {
        StateSignal::ConversationEntry { entry_type, subtype, stop_reason, tool_names } => Some(
            (entry_type@, opt_view(subtype), opt_view(stop_reason), views(tool_names@)),
        ),
        StateSignal::TerminalOutput { .. } => None,
    }
}

/// The fields of a conversation-entry driver signal.
pub open spec fn driver_entry(s: DriverSignal) -> Option<(Seq<char>, Option<Seq<char>>, Option<Seq<char>>, Seq<Seq<char>>)> {
    match s {
        DriverSignal::ConversationEntry { entry_type, subtype, stop_reason, tool_names } => Some(
            (entry_type@, opt_view(subtype), opt_view(stop_reason), views(tool_names@)),
        ),
        DriverSignal::SessionDiscovered(_) => None,
    }
}

/// A copy of an optional string.
fn copy_opt(o: &Option<String>) -> (res: Option<String>)
    ensures
        opt_view(res) == opt_view(*o),
{
    match o {
        Some(s) => Some(s.clone()),
        None => None,
    }
}

/// A copy of a list of strings.
fn copy_names(v: &Vec<String>) -> (res: Vec<String>)
    ensures
        views(res@) == views(v@),
{
    let mut out: Vec<String> = Vec::new();
    let mut i: usize = 0;
    while i < v.len()
        invariant
            0 <= i <= v@.len(),
            views(out@) == views(v@).take(i as int),
        decreases v.len() - i,
    {
        let ghost before = views(out@);
        out.push(v[i].clone());
        assert(views(out@) =~= before.push(v@[i as int]@));
        assert(views(v@).take(i + 1) =~= views(v@).take(i as int).push(v@[i as int]@));
        i = i + 1;
    }
    assert(views(v@).take(v@.len() as int) =~= views(v@));
    out
}

/// Whether some tool in `names` is interactive.
fn any_interactive(names: &Vec<String>) -> (res: bool)
    ensures
        res == exists|i: int| 0 <= i < names@.len() && interactive_tool(#[trigger] names@[i]@),
{
    let mut i: usize = 0;
    while i < names.len()
        invariant
            0 <= i <= names@.len(),
            forall|j: int| 0 <= j < i ==> !interactive_tool(#[trigger] names@[j]@),
        decreases names.len() - i,
    {
        let n = names[i].as_str();
        if str_eq(n, "AskUserQuestion") || str_eq(n, "EnterPlanMode") || str_eq(n, "ExitPlanMode") {
            assert(interactive_tool(names@[i as int]@));
            return true;
        }
        i = i + 1;
    }
    false
}

/// The fields of the signal for `event`, as owned values.
fn entry_fields(event: &WatcherEvent) -> (res: (String, Option<String>, Option<String>, Vec<String>))
    ensures
        (res.0@, opt_view(res.1), opt_view(res.2), views(res.3@)) == entry_of(*event),
{
    match event {
        WatcherEvent::Turn(t) => {
            let is_assistant = match t.role {
                Role::Assistant => true,
                _ => false,
            };
            let entry_type = match &t.role {
                Role::User => "user".to_owned(),
                Role::Assistant => "assistant".to_owned(),
                Role::System => "system".to_owned(),
                Role::Other(s) => s.clone(),
            };
            let stop_reason = match &t.stop_reason {
                Some(r) => Some(r.clone()),
                None => if is_assistant && t.tool_names.len() == 0 {
                    Some("end_turn".to_owned())
                } else {
                    None
                },
            };
            let tool_names = if is_assistant {
                copy_names(&t.tool_names)
            } else {
                Vec::new()
            };
            proof {
                if !is_assistant {
                    assert(views(tool_names@) =~= Seq::<Seq<char>>::empty());
                }
            }
            (entry_type, copy_opt(&t.subtype), stop_reason, tool_names)
        },
        WatcherEvent::TurnUpdated(t) => {
            let entry_type = if any_interactive(&t.tool_names) {
                "user".to_owned()
            } else {
                "tool_result".to_owned()
            };
            let none: Vec<String> = Vec::new();
            assert(views(none@) =~= Seq::<Seq<char>>::empty());
            (entry_type, None, None, none)
        },
        WatcherEvent::Progress { kind, subtype } => {
            let none: Vec<String> = Vec::new();
            assert(views(none@) =~= Seq::<Seq<char>>::empty());
            (kind.clone(), copy_opt(subtype), None, none)
        },
    }
}

/// The state-inference signal for a watcher event: always a conversation
/// entry, with the fields `entry_of` gives.
pub fn watcher_event_to_signal(event: &WatcherEvent) -> (res: Option<StateSignal>)
    ensures
        res matches Some(s) && state_entry(s) == Some(entry_of(*event)),
{
    let (entry_type, subtype, stop_reason, tool_names) = entry_fields(event);
    Some(StateSignal::ConversationEntry { entry_type, subtype, stop_reason, tool_names })
}

/// The driver signal for a watcher event: always a conversation entry, with
/// the fields `entry_of` gives.
pub fn watcher_event_to_driver_signal(event: &WatcherEvent) -> (res: Option<DriverSignal>)
    ensures
        res matches Some(s) && driver_entry(s) == Some(entry_of(*event)),
{
    let (entry_type, subtype, stop_reason, tool_names) = entry_fields(event);
    Some(DriverSignal::ConversationEntry { entry_type, subtype, stop_reason, tool_names })
}

/// Whether an event is a turn, new or merged (metadata entries are not).
pub fn is_substantive_event(event: &WatcherEvent) -> (res: bool)
    ensures
        res == (event is Turn || event is TurnUpdated),
{
    match event {
        WatcherEvent::Turn(_) => true,
        WatcherEvent::TurnUpdated(_) => true,
        WatcherEvent::Progress { .. } => false,
    }
}

/// What a conversation provider lists of a session: its id, when it
/// started and was last active (milliseconds since the Unix epoch), how
/// many messages it has, and its file.
#[derive(Debug, Clone, PartialEq, Eq)]
pub struct ConversationMeta {
    pub id: String,
    pub started_at_ms: Option<i64>,
    pub last_activity_ms: Option<i64>,
    pub message_count: usize,
    pub file_path: Option<String>,
}

/// A session started at or after `created_at_ms`, when its start is known.
pub open spec fn candidate(m: ConversationMeta, created_at_ms: i64) -> bool {
    m.started_at_ms matches Some(t) && t >= created_at_ms
}

/// The filter of candidate sessions for an instance created at
/// `created_at_ms`.
pub open spec fn candidates_of(created_at_ms: i64) -> spec_fn(ConversationMeta) -> bool {
    |m: ConversationMeta| candidate(m, created_at_ms)
}

/// The sessions, of those a provider listed, that could belong to an
/// instance created at `created_at_ms`: those started at or after it, in
/// order; none when listing failed.
pub fn find_candidate_sessions<E>(listed: Result<Vec<ConversationMeta>, E>, created_at_ms: i64) -> (res: Vec<
    ConversationMeta,
>)
    ensures
        match listed {
            Ok(v) => res@ == v@.filter(candidates_of(created_at_ms)),
            Err(_) => res@.len() == 0,
        },
{
    match listed {
        Ok(v) => {
            let mut out: Vec<ConversationMeta> = Vec::new();
            let mut i: usize = 0;
            while i < v.len()
                invariant
                    0 <= i <= v@.len(),
                    out@ == v@.take(i as int).filter(candidates_of(created_at_ms)),
                decreases v.len() - i,
            {
                proof {
                    reveal(Seq::filter);
                    assert(v@.take(i + 1).drop_last() =~= v@.take(i as int));
                    assert(v@.take(i + 1).last() == v@[i as int]);
                }
                let m = &v[i];
                let keep = match m.started_at_ms {
                    Some(t) => t >= created_at_ms,
                    None => false,
                };
                if keep {
                    out.push(
                        ConversationMeta {
                            id: m.id.clone(),
                            started_at_ms: m.started_at_ms,
                            last_activity_ms: m.last_activity_ms,
                            message_count: m.message_count,
                            file_path: match &m.file_path {
                                Some(f) => Some(f.clone()),
                                None => None,
                            },
                        },
                    );
                }
                i = i + 1;
            }
            assert(v@.take(v@.len() as int) =~= v@);
            out
        },
        Err(_) => Vec::new(),
    }
}

} // verus!
