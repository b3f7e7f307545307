//! Decisions of the WebSocket message dispatcher: the access each client
//! request needs, what a refused request is answered, which input is
//! attributed to its sender, and the bounds put on requests.

use vstd::prelude::*;
use crate::capability::{has_pair, AccessRights};
use crate::desktop::{trim, trimmed};
use crate::text::{chars_of, push_char, push_str, str_eq};

verus! {

/// Access-denied replies per connection; later denials are dropped
/// silently, so that the error path cannot be used for amplification.
pub const MAX_ACCESS_DENIALS: u32 = 10;

/// The requests a client sends over the multiplexed WebSocket, by kind.
#[derive(Debug, Clone, Copy, PartialEq, Eq, Structural)]
pub enum ClientRequest {
    Focus,
    ConversationSync,
    Input,
    Resize,
    TerminalVisible,
    TerminalHidden,
    SessionSelect,
    Lobby,
    TerminalLockRequest,
    TerminalLockRelease,
    ChatSend,
    ChatHistory,
    ChatForward,
    ChatTopics,
    /// An interconnect call (invites, members, events), handled elsewhere.
    Interconnect,
}

/// The access (resource type and action) a request needs, if any.
pub open spec fn access_needed(r: ClientRequest) -> Option<(Seq<char>, Seq<char>)> {
    match r {
        ClientRequest::Focus => Some(("terminals"@, "read"@)),
        ClientRequest::ConversationSync => Some(("content"@, "read"@)),
        ClientRequest::Input => Some(("terminals"@, "input"@)),
        ClientRequest::Lobby => Some(("chat"@, "send"@)),
        ClientRequest::TerminalLockRequest => Some(("terminals"@, "input"@)),
        ClientRequest::ChatSend => Some(("chat"@, "send"@)),
        ClientRequest::ChatHistory => Some(("content"@, "read"@)),
        ClientRequest::ChatForward => Some(("chat"@, "send"@)),
        ClientRequest::ChatTopics => Some(("content"@, "read"@)),
        _ => None,
    }
}

/// The access a request needs: resizing, showing or hiding a terminal,
/// selecting a session and releasing a lock need none; interconnect calls
/// are checked where they are handled.
pub fn required_access(r: ClientRequest) -> (res: Option<(&'static str, &'static str)>)
    ensures
        match res {
            Some((t, a)) => access_needed(r) == Some((t@, a@)),
            None => access_needed(r) is None,
        },
{
    match r {
        ClientRequest::Focus => Some(("terminals", "read")),
        ClientRequest::ConversationSync => Some(("content", "read")),
        ClientRequest::Input => Some(("terminals", "input")),
        ClientRequest::Lobby => Some(("chat", "send")),
        ClientRequest::TerminalLockRequest => Some(("terminals", "input")),
        ClientRequest::ChatSend => Some(("chat", "send")),
        ClientRequest::ChatHistory => Some(("content", "read")),
        ClientRequest::ChatForward => Some(("chat", "send")),
        ClientRequest::ChatTopics => Some(("content", "read")),
        _ => None,
    }
}

/// The access each kind of request needs: every request that posts to chat
/// (sending, forwarding, the lobby) needs `chat:send`; typing into a
/// terminal and taking its lock need `terminals:input`; focusing a terminal
/// needs `terminals:read`; reading conversation or chat content (sync,
/// history, topics) needs `content:read`; resizing, showing or hiding a
/// terminal, selecting a session, releasing a lock and interconnect calls
/// need none here.
pub proof fn law_access_needed(r: ClientRequest)
    ensures
        (access_needed(r) == Some(("chat"@, "send"@))) <==> (r is ChatSend || r is ChatForward || r is Lobby),
        (access_needed(r) == Some(("terminals"@, "input"@))) <==> (r is Input || r is TerminalLockRequest),
        (access_needed(r) == Some(("terminals"@, "read"@))) <==> r is Focus,
        (access_needed(r) == Some(("content"@, "read"@))) <==> (r is ConversationSync || r is ChatHistory
            || r is ChatTopics),
        access_needed(r) is None <==> (r is Resize || r is TerminalVisible || r is TerminalHidden
            || r is SessionSelect || r is TerminalLockRelease || r is Interconnect),
{
    reveal_strlit("chat");
    reveal_strlit("send");
    reveal_strlit("terminals");
    reveal_strlit("input");
    reveal_strlit("read");
    reveal_strlit("content");
    assert("chat"@.len() == 4 && "terminals"@.len() == 9 && "content"@.len() == 7);
    assert("send"@.len() == 4 && "input"@.len() == 5 && "read"@.len() == 4);
    assert("send"@ != "input"@ && "send"@ != "read"@ && "input"@ != "read"@) by {
        assert("send"@[0] != "read"@[0]);
    }
}

/// The reply to a refused request: for an authenticated user, the access
/// it lacks; otherwise that authentication is required.
pub open spec fn denial_text(authenticated: bool, type_: Seq<char>, action: Seq<char>) -> Seq<char> {
    if authenticated {
        "access denied: requires "@ + type_ + ":"@ + action
    } else {
        "authentication required"@
    }
}

/// Checks a request that needs `type_`:`action`. It is let through when the
/// connection is authenticated and its user has that access (`granted`).
/// Otherwise the connection's denial count goes up by one (wrapping), and
/// the reply to send is returned while fewer than `MAX_ACCESS_DENIALS`
/// denials came before.
pub fn check_access(authenticated: bool, granted: bool, type_: &str, action: &str, denials: &mut u32) -> (res: (
    bool,
    Option<String>,
))
    ensures
        res.0 == (authenticated && granted),
        res.0 ==> *final(denials) == *old(denials) && res.1 is None,
        !res.0 ==> *final(denials) == old(denials).wrapping_add(1),
        !res.0 && *old(denials) < MAX_ACCESS_DENIALS ==> (res.1 matches Some(m) && m@ == denial_text(
            authenticated,
            type_@,
            action@,
        )),
        !res.0 && *old(denials) >= MAX_ACCESS_DENIALS ==> res.1 is None,
{
    if authenticated && granted {
        return (true, None);
    }
    let prev = *denials;
    *denials = prev.wrapping_add(1);
    if prev >= MAX_ACCESS_DENIALS {
        return (false, None);
    }
    let mut m = String::new();
    if authenticated {
        push_str(&mut m, "access denied: requires ");
        push_str(&mut m, type_);
        push_str(&mut m, ":");
        push_str(&mut m, action);
    } else {
        push_str(&mut m, "authentication required");
    }
    (false, Some(m))
}

/// Checks a request that needs `type_`:`action` against the access rights
/// of the connection's user (`None` for an unauthenticated connection): it
/// is let through when the rights contain that pair, and refused as
/// `check_access` refuses otherwise.
pub fn require_access(user_rights: Option<&AccessRights>, type_: &str, action: &str, denials: &mut u32) -> (res: (
    bool,
    Option<String>,
))
    ensures
        res.0 == (user_rights matches Some(r) && has_pair(r@, type_@, action@)),
        res.0 ==> *final(denials) == *old(denials) && res.1 is None,
        !res.0 ==> *final(denials) == old(denials).wrapping_add(1),
        !res.0 && *old(denials) < MAX_ACCESS_DENIALS ==> (res.1 matches Some(m) && m@ == denial_text(
            user_rights is Some,
            type_@,
            action@,
        )),
        !res.0 && *old(denials) >= MAX_ACCESS_DENIALS ==> res.1 is None,
{
    match user_rights {
        Some(r) => {
            let granted = r.contains(type_, action);
            check_access(true, granted, type_, action, denials)
        },
        None => check_access(false, false, type_, action, denials),
    }
}

/// The input text attributed to its sender: the input without surrounding
/// whitespace, unless that is empty or a bare line break.
pub open spec fn attributed_text(data: Seq<char>) -> Option<Seq<char>> {
    let t = trimmed(data);
    if t.len() == 0 || t == "\r"@ || t == "\n"@ {
        None
    } else {
        Some(t)
    }
}

/// The text of terminal input `data` to attribute to its sender, if any.
pub fn attributed_input(data: &str) -> (res: Option<String>)
    ensures
        match res {
            Some(t) => attributed_text(data@) == Some(t@),
            None => attributed_text(data@) is None,
        },
{
    let t = trim(data);
    if t.as_str().is_empty() || str_eq(t.as_str(), "\r") || str_eq(t.as_str(), "\n") {
        None
    } else {
        Some(t)
    }
}

/// The first `n` characters of `s`, or all of it when it is shorter.
pub open spec fn first_chars(s: Seq<char>, n: nat) -> Seq<char> {
    if s.len() <= n {
        s
    } else {
        s.take(n as int)
    }
}

/// The preview of attributed input kept with its record: its first hundred
/// characters.
pub fn content_preview(text: &str) -> (res: String)
    ensures
        res@ == first_chars(text@, 100),
{
    let cs = chars_of(text);
    let n: usize = if cs.len() <= 100 {
        cs.len()
    } else {
        100
    };
    let mut out = String::new();
    let mut i: usize = 0;
    while i < n
        invariant
            0 <= i <= n <= cs@.len(),
            cs@ == text@,
            out@ == text@.take(i as int),
        decreases n - i,
    {
        push_char(&mut out, cs[i]);
        assert(text@.take(i + 1) =~= text@.take(i as int).push(text@[i as int]));
        i = i + 1;
    }
    assert(text@.take(n as int) =~= first_chars(text@, 100));
    out
}

/// Chat messages returned per history page: the number asked for (fifty
/// when none is given), at most a hundred.
pub fn chat_history_limit(limit: Option<i64>) -> (res: i64)
    ensures
        res == match limit {
            Some(l) => if l < 100 {
                l
            } else {
                100
            },
            None => 50,
        },
{
    let l = match limit {
        Some(l) => l,
        None => 50,
    };
    if l < 100 {
        l
    } else {
        100
    }
}

/// How a conversation sync is answered.
#[derive(Debug, Clone, Copy, PartialEq, Eq, Structural)]
pub enum SyncReply {
    /// The whole conversation.
    Full,
    /// The entries after the one the client has.
    Update,
}

/// The reply to a conversation sync with `turns` entries to send: the whole
/// conversation when the client named no entry it has; otherwise the new
/// entries, or nothing when there are none.
pub fn sync_reply(has_since: bool, turns: usize) -> (res: Option<SyncReply>)
    ensures
        !has_since ==> res == Some(SyncReply::Full),
        has_since && turns > 0 ==> res == Some(SyncReply::Update),
        has_since && turns == 0 ==> res is None,
{
    if !has_since {
        Some(SyncReply::Full)
    } else if turns > 0 {
        Some(SyncReply::Update)
    } else {
        None
    }
}

/// What the dispatcher does after it tried to write a client's input to an
/// instance's terminal.
#[derive(Debug, PartialEq, Eq)]
pub enum InputEffect {
    /// Tell the client, with this message.
    Error(String),
    /// Record that the instance got input (it has no session yet, and the
    /// time of its first input guides session discovery).
    MarkFirstInput,
    /// Keep the connection's terminal lock fresh.
    TouchLock,
    /// Queue the input as sent by the connection's user, and record it with
    /// this preview.
    Attribute { text: String, preview: String },
}

/// Decides the effects of an input message of `data` to an instance:
/// `write` is none when the instance is gone, else the outcome of writing
/// to its terminal (with the error's text); `has_session` says whether the
/// instance's session is known, `authenticated` whether the connection has
/// a user. A failed or impossible write is reported; a write that went
/// through marks the first input while no session is known, touches the
/// lock, and attributes the input to an authenticated user when it has
/// text.
pub fn input_effects(write: Option<Result<(), String>>, has_session: bool, authenticated: bool, data: &str) -> (res:
    Vec<InputEffect>)
    ensures
        write is None ==> res@.len() == 1 && (res@[0] matches InputEffect::Error(m) && m@
            == "Instance no longer available"@),
        write matches Some(Err(e)) ==> res@.len() == 1 && (res@[0] matches InputEffect::Error(m) && m@
            == "Failed to send input: "@ + e@),
        write matches Some(Ok(_)) ==> {
            let k: int = if has_session {
                0
            } else {
                1
            };
            let attributed = authenticated && attributed_text(data@) is Some;
            &&& res@.len() == k + 1 + (if attributed {
                1int
            } else {
                0int
            })
            &&& !has_session ==> res@[0] is MarkFirstInput
            &&& res@[k] is TouchLock
            &&& attributed ==> (res@[k + 1] matches InputEffect::Attribute { text, preview } && Some(text@)
                == attributed_text(data@) && preview@ == first_chars(text@, 100))
        },
{
    let mut out: Vec<InputEffect> = Vec::new();
    match write {
        None => {
            let mut m = String::new();
            push_str(&mut m, "Instance no longer available");
            out.push(InputEffect::Error(m));
        },
        Some(Err(e)) => {
            let mut m = String::new();
            push_str(&mut m, "Failed to send input: ");
            push_str(&mut m, e.as_str());
            out.push(InputEffect::Error(m));
        },
        Some(Ok(_)) => {
            if !has_session {
                out.push(InputEffect::MarkFirstInput);
            }
            out.push(InputEffect::TouchLock);
            if authenticated {
                match attributed_input(data) {
                    Some(text) => {
                        let preview = content_preview(text.as_str());
                        out.push(InputEffect::Attribute { text, preview });
                    },
                    None => {},
                }
            }
        },
    }
    out
}

} // verus!
