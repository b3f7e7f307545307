//! PTY session bookkeeping: errors, identifiers, configuration and state
//! records, the environment a session is spawned with, what a kill request
//! does, and the bounded output kept for each session.

use std::collections::VecDeque;
use vstd::prelude::*;
use crate::keyed::{keyed_map, keys_unique, lemma_keyed_entry, lemma_keyed_push, lemma_keyed_remove, lemma_keyed_set};
use crate::text::{decimal, ends_with, has_suffix, push_decimal, push_str, str_eq};
use crate::wire::push_bytes;

verus! {

/// Errors of PTY operations.
#[derive(Debug, Clone, PartialEq, Eq)]
pub enum PtyError {
    /// The PTY could not be created.
    CreateFailed(String),
    /// No PTY has this id.
    NotFound(u64),
    /// Writing to the PTY failed.
    WriteFailed(String),
    /// Reading from the PTY failed.
    ReadFailed(String),
    /// Resizing the PTY failed.
    ResizeFailed(String),
    /// The PTY process could not be killed.
    KillFailed(String),
    /// The PTY process has exited.
    ProcessExited,
    /// A channel to the PTY task failed.
    ChannelError(String),
}

/// The display text of a PTY error.
pub open spec fn pty_error_text(e: PtyError) -> Seq<char> {
    match e {
        PtyError::CreateFailed(m) => "Failed to create PTY: "@ + m@,
        PtyError::NotFound(id) => "PTY not found: "@ + decimal(id as nat),
        PtyError::WriteFailed(m) => "Failed to write to PTY: "@ + m@,
        PtyError::ReadFailed(m) => "Failed to read from PTY: "@ + m@,
        PtyError::ResizeFailed(m) => "Failed to resize PTY: "@ + m@,
        PtyError::KillFailed(m) => "Failed to kill PTY: "@ + m@,
        PtyError::ProcessExited => "PTY process has exited"@,
        PtyError::ChannelError(m) => "Channel error: "@ + m@,
    }
}

impl PtyError {
    /// The error's display text.
    pub fn message(&self) -> (res: String)
        ensures
            res@ == pty_error_text(*self),
    {
        let mut out = String::new();
        match self {
            PtyError::CreateFailed(m) => {
                push_str(&mut out, "Failed to create PTY: ");
                push_str(&mut out, m.as_str());
            },
            PtyError::NotFound(id) => {
                push_str(&mut out, "PTY not found: ");
                push_decimal(&mut out, *id);
            },
            PtyError::WriteFailed(m) => {
                push_str(&mut out, "Failed to write to PTY: ");
                push_str(&mut out, m.as_str());
            },
            PtyError::ReadFailed(m) => {
                push_str(&mut out, "Failed to read from PTY: ");
                push_str(&mut out, m.as_str());
            },
            PtyError::ResizeFailed(m) => {
                push_str(&mut out, "Failed to resize PTY: ");
                push_str(&mut out, m.as_str());
            },
            PtyError::KillFailed(m) => {
                push_str(&mut out, "Failed to kill PTY: ");
                push_str(&mut out, m.as_str());
            },
            PtyError::ProcessExited => push_str(&mut out, "PTY process has exited"),
            PtyError::ChannelError(m) => {
                push_str(&mut out, "Channel error: ");
                push_str(&mut out, m.as_str());
            },
        }
        out
    }
}

/// Identifier of a PTY session.
#[derive(Debug, Clone, Copy, PartialEq, Eq, Hash, Structural)]
pub struct PtyId(pub u64);

impl PtyId {
    /// The id's display text, `pty-` and the number.
    pub fn label(&self) -> (res: String)
        ensures
            res@ == "pty-"@ + decimal(self.0 as nat),
    {
        let mut out = String::new();
        push_str(&mut out, "pty-");
        push_decimal(&mut out, self.0);
        out
    }
}

/// Events of managed PTYs.
#[derive(Debug, Clone)]
pub enum PtyEvent {
    /// Output of a PTY.
    Output { id: PtyId, data: Vec<u8> },
    /// A PTY process exited.
    Exited { id: PtyId, exit_code: Option<i32> },
}

/// How to spawn a PTY.
#[derive(Debug, Clone)]
pub struct PtyConfig {
    pub command: String,
    pub args: Vec<String>,
    pub working_dir: Option<String>,
    pub env: Vec<(String, String)>,
    pub rows: u16,
    pub cols: u16,
}

impl Default for PtyConfig {
    /// `/bin/bash` with no arguments, no working directory and no extra
    /// environment, on a 24 by 80 terminal.
    fn default() -> (res: Self)
        ensures
            res.command@ == "/bin/bash"@,
            res.args@.len() == 0,
            res.working_dir is None,
            res.env@.len() == 0,
            res.rows == 24,
            res.cols == 80,
    {
        PtyConfig {
            command: "/bin/bash".to_owned(),
            args: Vec::new(),
            working_dir: None,
            env: Vec::new(),
            rows: 24,
            cols: 80,
        }
    }
}

/// The state of a PTY session.
#[derive(Debug, Clone)]
pub struct PtyState {
    pub running: bool,
    pub pid: Option<u32>,
    pub command: String,
    pub args: Vec<String>,
    pub rows: u16,
    pub cols: u16,
}

impl PtyState {
    /// The state of a session just started from `config`, with process id
    /// `pid`.
    pub fn started(config: &PtyConfig, pid: Option<u32>) -> (res: Self)
        ensures
            res.running,
            res.pid == pid,
            res.command@ == config.command@,
            res.args@.map_values(|a: String| a@) == config.args@.map_values(|a: String| a@),
            res.rows == config.rows,
            res.cols == config.cols,
    {
        PtyState {
            running: true,
            pid,
            command: config.command.clone(),
            args: clone_strings_vec(&config.args),
            rows: config.rows,
            cols: config.cols,
        }
    }
}

/// A copy of a list of strings.
fn clone_strings_vec(v: &Vec<String>) -> (res: Vec<String>)
    ensures
        res@.map_values(|a: String| a@) == v@.map_values(|a: String| a@),
{
    let mut out: Vec<String> = Vec::new();
    let mut i: usize = 0;
    while i < v.len()
        invariant
            0 <= i <= v@.len(),
            out@.len() == i,
            forall|k: int| 0 <= k < i ==> (#[trigger] out@[k])@ == v@[k]@,
        decreases v.len() - i,
    {
        out.push(v[i].clone());
        i = i + 1;
    }
    assert(out@.map_values(|a: String| a@) =~= v@.map_values(|a: String| a@));
    out
}

/// Output of a PTY, with the time it was read (milliseconds since the Unix
/// epoch).
#[derive(Debug, Clone)]
pub struct PtyOutput {
    pub data: Vec<u8>,
    pub timestamp: i64,
}

/// Environment settings as pairs of views.
pub open spec fn env_view(v: Seq<(String, String)>) -> Seq<(Seq<char>, Seq<char>)> {
    v.map_values(|p: (String, String)| (p.0@, p.1@))
}

/// The setting `name=value` when the value is known.
pub open spec fn inherited(name: Seq<char>, value: Option<String>) -> Seq<(Seq<char>, Seq<char>)> {
    match value {
        Some(v) => seq![(name, v@)],
        None => seq![],
    }
}

/// A command run as an interactive shell: its path ends in `bash`, `sh` or
/// `zsh`.
pub open spec fn is_shell(command: Seq<char>) -> bool {
    has_suffix(command, "bash"@) || has_suffix(command, "sh"@) || has_suffix(command, "zsh"@)
}

/// The environment a PTY is spawned with, setting by setting in the order
/// applied (a later setting of a name wins): the terminal type, colour
/// support, the inherited `PATH`, `HOME` and `USER` where known, the
/// configured settings, and a plain prompt for shells.
pub open spec fn spawn_env(
    custom: Seq<(Seq<char>, Seq<char>)>,
    command: Seq<char>,
    path: Option<String>,
    home: Option<String>,
    user: Option<String>,
) -> Seq<(Seq<char>, Seq<char>)> {
    seq![("TERM"@, "xterm-256color"@), ("COLORTERM"@, "truecolor"@)] + inherited("PATH"@, path) + inherited(
        "HOME"@,
        home,
    ) + inherited("USER"@, user) + custom + if is_shell(command) {
        seq![("PS1"@, "$ "@)]
    } else {
        seq![]
    }
}

/// Appends the setting `name=value`.
fn push_setting(out: &mut Vec<(String, String)>, name: &str, value: &str)
    ensures
        env_view(final(out)@) == env_view(old(out)@).push((name@, value@)),
{
    let ghost before = out@;
    out.push((name.to_owned(), value.to_owned()));
    assert(env_view(out@) =~= env_view(before).push((name@, value@)));
}

/// The environment settings for spawning `command` with the configured
/// settings `custom`, given the inherited `PATH`, `HOME` and `USER`.
pub fn spawn_environment(
    custom: &Vec<(String, String)>,
    command: &str,
    path: Option<String>,
    home: Option<String>,
    user: Option<String>,
) -> (res: Vec<(String, String)>)
    ensures
        env_view(res@) == spawn_env(env_view(custom@), command@, path, home, user),
{
    let mut out: Vec<(String, String)> = Vec::new();
    push_setting(&mut out, "TERM", "xterm-256color");
    push_setting(&mut out, "COLORTERM", "truecolor");
    let ghost base = env_view(out@);
    if let Some(p) = &path {
        push_setting(&mut out, "PATH", p.as_str());
    }
    assert(env_view(out@) =~= base + inherited("PATH"@, path));
    let ghost with_path = env_view(out@);
    if let Some(h) = &home {
        push_setting(&mut out, "HOME", h.as_str());
    }
    assert(env_view(out@) =~= with_path + inherited("HOME"@, home));
    let ghost with_home = env_view(out@);
    if let Some(u) = &user {
        push_setting(&mut out, "USER", u.as_str());
    }
    assert(env_view(out@) =~= with_home + inherited("USER"@, user));
    let ghost inherited_part = env_view(out@);
    let mut i: usize = 0;
    while i < custom.len()
        invariant
            0 <= i <= custom@.len(),
            env_view(out@) == inherited_part + env_view(custom@).take(i as int),
        decreases custom.len() - i,
    {
        push_setting(&mut out, custom[i].0.as_str(), custom[i].1.as_str());
        assert(env_view(custom@).take(i + 1) =~= env_view(custom@).take(i as int).push(
            (custom@[i as int].0@, custom@[i as int].1@),
        ));
        i = i + 1;
    }
    assert(env_view(custom@).take(custom@.len() as int) =~= env_view(custom@));
    let ghost with_custom = env_view(out@);
    let shell = ends_with(command, "bash") || ends_with(command, "sh") || ends_with(command, "zsh");
    if shell {
        push_setting(&mut out, "PS1", "$ ");
    }
    assert(env_view(out@) =~= with_custom + if is_shell(command@) {
        seq![("PS1"@, "$ "@)]
    } else {
        seq![]
    });
    out
}

/// What a kill request does to the process of a PTY.
#[derive(Debug, Clone, Copy, PartialEq, Eq, Structural)]
pub enum KillAction {
    /// Send `SIGTERM` to the process.
    Terminate,
    /// Kill the process outright.
    ForceKill,
    /// Type Ctrl+C (byte 3) into the terminal; the process keeps running.
    Interrupt,
}

/// The action for the requested signal: none or `SIGTERM` terminates,
/// `SIGKILL` kills, `SIGINT` interrupts; any other signal is refused.
pub open spec fn kill_outcome(signal: Option<Seq<char>>) -> Result<KillAction, Seq<char>> {
    match signal {
        None => Ok(KillAction::Terminate),
        Some(s) => if s == "SIGTERM"@ {
            Ok(KillAction::Terminate)
        } else if s == "SIGKILL"@ {
            Ok(KillAction::ForceKill)
        } else if s == "SIGINT"@ {
            Ok(KillAction::Interrupt)
        } else {
            Err("Unsupported signal: "@ + s)
        },
    }
}

/// Decides what a kill request with `signal` does. A refused signal is a
/// `KillFailed` error naming it.
pub fn kill_action(signal: Option<&str>) -> (res: Result<KillAction, PtyError>)
    ensures
        match kill_outcome(
            match signal {
                Some(s) => Some(s@),
                None => None,
            },
        ) {
            Ok(a) => res == Ok::<KillAction, PtyError>(a),
            Err(m) => res matches Err(PtyError::KillFailed(t)) && t@ == m,
        },
{
    match signal {
        None => Ok(KillAction::Terminate),
        Some(s) => {
            if str_eq(s, "SIGTERM") {
                Ok(KillAction::Terminate)
            } else if str_eq(s, "SIGKILL") {
                Ok(KillAction::ForceKill)
            } else if str_eq(s, "SIGINT") {
                Ok(KillAction::Interrupt)
            } else {
                let mut m = String::new();
                push_str(&mut m, "Unsupported signal: ");
                push_str(&mut m, s);
                Err(PtyError::KillFailed(m))
            }
        },
    }
}

/// Bytes of output kept for each PTY session (1 MiB).
pub const MAX_BUFFER_SIZE: usize = 1048576;

/// The bytes of `chunks`, one after another.
pub open spec fn concat_chunks(chunks: Seq<Seq<u8>>) -> Seq<u8>
    decreases chunks.len(),
{
    if chunks.len() == 0 {
        Seq::empty()
    } else {
        chunks[0] + concat_chunks(chunks.drop_first())
    }
}

/// Appending a chunk appends its bytes.
pub proof fn lemma_concat_push(chunks: Seq<Seq<u8>>, x: Seq<u8>)
    ensures
        concat_chunks(chunks.push(x)) == concat_chunks(chunks) + x,
    decreases chunks.len(),
{
    if chunks.len() == 0 {
        assert(chunks.push(x).drop_first() =~= Seq::<Seq<u8>>::empty());
        assert(concat_chunks(Seq::<Seq<u8>>::empty()) == Seq::<u8>::empty());
        assert(chunks.push(x)[0] == x);
        assert(concat_chunks(chunks.push(x)) =~= x);
    } else {
        lemma_concat_push(chunks.drop_first(), x);
        assert(chunks.push(x).drop_first() =~= chunks.drop_first().push(x));
        assert(concat_chunks(chunks.push(x)) =~= concat_chunks(chunks) + x);
    }
}

/// `chunks` without as many of its oldest chunks as it takes to bring its
/// size to at most `limit` (all of them, if the newest alone is larger).
pub open spec fn trim_to(chunks: Seq<Seq<u8>>, limit: nat) -> Seq<Seq<u8>>
    decreases chunks.len(),
{
    if chunks.len() == 0 || concat_chunks(chunks).len() <= limit {
        chunks
    } else {
        trim_to(chunks.drop_first(), limit)
    }
}

/// The last `max` bytes of `content`, or all of it when it is shorter.
pub open spec fn recent_bytes(content: Seq<u8>, max: nat) -> Seq<u8> {
    if content.len() <= max {
        content
    } else {
        content.skip(content.len() - max)
    }
}

/// The output kept for a PTY session: the chunks read, newest last, at
/// most `MAX_BUFFER_SIZE` bytes in all.
pub struct OutputBuffer {
    chunks: VecDeque<Vec<u8>>,
    total: usize,
}

impl OutputBuffer {
    /// The chunks kept, oldest first.
    pub closed spec fn chunks(&self) -> Seq<Seq<u8>> {
        self.chunks@.map_values(|c: Vec<u8>| c@)
    }

    /// The running total is the size of the chunks, within the limit.
    pub closed spec fn wf(&self) -> bool {
        self.total == concat_chunks(self.chunks()).len() && self.total <= MAX_BUFFER_SIZE
    }

    /// No output yet.
    pub fn new() -> (res: Self)
        ensures
            res.wf(),
            res.chunks() == Seq::<Seq<u8>>::empty(),
    {
        let res = OutputBuffer { chunks: VecDeque::new(), total: 0 };
        assert(res.chunks() =~= Seq::<Seq<u8>>::empty());
        res
    }

    /// Keeps a new chunk of output, then drops the oldest chunks while the
    /// total is over the limit.
    pub fn push(&mut self, data: &[u8])
        requires
            old(self).wf(),
            data@.len() <= usize::MAX - MAX_BUFFER_SIZE,
        ensures
            final(self).wf(),
            final(self).chunks() == trim_to(old(self).chunks().push(data@), MAX_BUFFER_SIZE as nat),
    {
        let mut v: Vec<u8> = Vec::new();
        push_bytes(&mut v, data);
        let ghost before = self.chunks();
        self.chunks.push_back(v);
        self.total = self.total + data.len();
        proof {
            assert(self.chunks() =~= before.push(data@));
            lemma_concat_push(before, data@);
        }
        let ghost target = trim_to(before.push(data@), MAX_BUFFER_SIZE as nat);
        while self.total > MAX_BUFFER_SIZE && self.chunks.len() > 0
            invariant
                self.total == concat_chunks(self.chunks()).len(),
                trim_to(self.chunks(), MAX_BUFFER_SIZE as nat) == target,
            decreases self.chunks@.len(),
        {
            let ghost cs = self.chunks();
            let removed = self.chunks.pop_front();
            match removed {
                Some(r) => {
                    proof {
                        assert(self.chunks() =~= cs.drop_first());
                        assert(r@ == cs[0]);
                    }
                    self.total = self.total - r.len();
                },
                None => {},
            }
        }
        proof {
            if self.chunks@.len() == 0 {
                assert(self.chunks() =~= Seq::<Seq<u8>>::empty());
            }
        }
    }

    /// The size of the output kept.
    pub fn total_size(&self) -> (res: usize)
        requires
            self.wf(),
        ensures
            res == concat_chunks(self.chunks()).len(),
    {
        self.total
    }

    /// All output kept, oldest first.
    pub fn full_output(&self) -> (res: Vec<u8>)
        requires
            self.wf(),
        ensures
            res@ == concat_chunks(self.chunks()),
    {
        let mut out: Vec<u8> = Vec::new();
        let n = self.chunks.len();
        let mut i: usize = n;
        while i > 0
            invariant
                0 <= i <= n,
                n == self.chunks@.len(),
                out@ == concat_chunks(self.chunks().skip(i as int)),
            decreases i,
        {
            i = i - 1;
            let mut next: Vec<u8> = Vec::new();
            push_bytes(&mut next, self.chunks[i].as_slice());
            proof {
                let cs = self.chunks();
                assert(cs.skip(i as int).drop_first() =~= cs.skip(i + 1));
                assert(cs.skip(i as int)[0] == cs[i as int]);
            }
            push_bytes(&mut next, out.as_slice());
            out = next;
        }
        assert(self.chunks().skip(0) =~= self.chunks());
        out
    }

    /// The last `max_bytes` bytes of the output kept, oldest first.
    pub fn recent_output(&self, max_bytes: usize) -> (res: Vec<u8>)
        requires
            self.wf(),
        ensures
            res@ == recent_bytes(concat_chunks(self.chunks()), max_bytes as nat),
    {
        let all = self.full_output();
        if all.len() <= max_bytes {
            return all;
        }
        let from: usize = all.len() - max_bytes;
        let mut out: Vec<u8> = Vec::new();
        let mut i: usize = from;
        while i < all.len()
            invariant
                from <= i <= all@.len(),
                out@ == all@.subrange(from as int, i as int),
            decreases all.len() - i,
        {
            out.push(all[i]);
            assert(all@.subrange(from as int, i + 1) =~= all@.subrange(from as int, i as int).push(all@[i as int]));
            i = i + 1;
        }
        assert(all@.subrange(from as int, all@.len() as int) =~= all@.skip(from as int));
        out
    }
}

/// Output kept after a push never exceeds the limit, and a chunk that fits
/// within the limit by itself is always kept, as the newest: what is kept is
/// the newest chunks, ending with it.
pub proof fn law_output_buffer_keeps_newest(chunks: Seq<Seq<u8>>, data: Seq<u8>)
    requires
        data.len() <= MAX_BUFFER_SIZE,
    ensures
        concat_chunks(trim_to(chunks.push(data), MAX_BUFFER_SIZE as nat)).len() <= MAX_BUFFER_SIZE,
        trim_to(chunks.push(data), MAX_BUFFER_SIZE as nat).len() > 0,
        trim_to(chunks.push(data), MAX_BUFFER_SIZE as nat).last() == data,
        exists|k: int|
            0 <= k <= chunks.len() && trim_to(chunks.push(data), MAX_BUFFER_SIZE as nat) == chunks.push(data).skip(k),
    decreases chunks.len(),
{
    let s = chunks.push(data);
    let limit = MAX_BUFFER_SIZE as nat;
    if concat_chunks(s).len() <= limit {
        assert(s.skip(0) =~= s);
    } else if chunks.len() == 0 {
        lemma_concat_push(chunks, data);
        assert(concat_chunks(chunks) == Seq::<u8>::empty());
    } else {
        law_output_buffer_keeps_newest(chunks.drop_first(), data);
        assert(s.drop_first() =~= chunks.drop_first().push(data));
        let k = choose|k: int|
            0 <= k <= chunks.drop_first().len() && trim_to(chunks.drop_first().push(data), limit)
                == chunks.drop_first().push(data).skip(k);
        assert(chunks.drop_first().push(data).skip(k) =~= s.skip(k + 1));
    }
}

/// Recent output is the end of all output kept: as many of its last bytes
/// as asked for, or all of it.
pub proof fn law_recent_output_is_tail(content: Seq<u8>, max: nat)
    ensures
        recent_bytes(content, max).len() == if content.len() <= max {
            content.len()
        } else {
            max
        },
        content.skip(content.len() - recent_bytes(content, max).len()) == recent_bytes(content, max),
{
    if content.len() <= max {
        assert(content.skip(0) =~= content);
    }
}

/// The position of `id` among `ids`, if it is there.
fn find_id(ids: &Vec<u64>, id: u64) -> (res: Option<usize>)
    ensures
        match res {
            Some(i) => i < ids@.len() && ids@[i as int] == id,
            None => forall|i: int| 0 <= i < ids@.len() ==> ids@[i] != id,
        },
{
    let mut i: usize = 0;
    while i < ids.len()
        invariant
            0 <= i <= ids@.len(),
            forall|j: int| 0 <= j < i ==> ids@[j] != id,
        decreases ids.len() - i,
    {
        if ids[i] == id {
            return Some(i);
        }
        i = i + 1;
    }
    None
}

/// The PTY sessions of a manager, by id, each with the output kept for it,
/// and the id the next session gets.
pub struct PtySessions {
    ids: Vec<u64>,
    buffers: Vec<OutputBuffer>,
    next_id: u64,
}

/// The chunks of each buffer.
pub open spec fn buffer_chunks(bs: Seq<OutputBuffer>) -> Seq<Seq<Seq<u8>>> {
    bs.map_values(|b: OutputBuffer| b.chunks())
}

impl PtySessions {
    /// Each id once; each buffer within its limit.
    pub closed spec fn wf(&self) -> bool {
        &&& self.ids@.len() == self.buffers@.len()
        &&& keys_unique(self.ids@)
        &&& forall|i: int| 0 <= i < self.buffers@.len() ==> (#[trigger] self.buffers@[i]).wf()
    }

    /// Session id to the output chunks kept for it.
    pub closed spec fn sessions(&self) -> Map<u64, Seq<Seq<u8>>> {
        keyed_map(self.ids@, buffer_chunks(self.buffers@))
    }

    /// The id the next session gets.
    pub closed spec fn next(&self) -> u64 {
        self.next_id
    }

    /// No sessions; ids start at 1.
    pub fn new() -> (res: Self)
        ensures
            res.wf(),
            res.sessions() == Map::<u64, Seq<Seq<u8>>>::empty(),
            res.next() == 1,
    {
        let res = PtySessions { ids: Vec::new(), buffers: Vec::new(), next_id: 1 };
        assert(res.sessions() =~= Map::<u64, Seq<Seq<u8>>>::empty());
        res
    }

    /// Hands out the next id; ids count up by one, wrapping around.
    pub fn allocate_id(&mut self) -> (res: PtyId)
        requires
            old(self).wf(),
        ensures
            final(self).wf(),
            res.0 == old(self).next(),
            final(self).next() == old(self).next().wrapping_add(1),
            final(self).sessions() == old(self).sessions(),
    {
        let id = self.next_id;
        self.next_id = self.next_id.wrapping_add(1);
        PtyId(id)
    }

    /// Starts keeping output for `id`, with none kept yet; a session
    /// already there under this id starts over.
    pub fn insert(&mut self, id: PtyId)
        requires
            old(self).wf(),
        ensures
            final(self).wf(),
            final(self).sessions() == old(self).sessions().insert(id.0, Seq::<Seq<u8>>::empty()),
            final(self).next() == old(self).next(),
    {
        let fresh = OutputBuffer::new();
        let ghost cs = buffer_chunks(self.buffers@);
        match find_id(&self.ids, id.0) {
            Some(i) => {
                self.buffers.set(i, fresh);
                proof {
                    assert(buffer_chunks(self.buffers@) =~= cs.update(i as int, Seq::<Seq<u8>>::empty()));
                    lemma_keyed_set(self.ids@, cs, i as int, Seq::<Seq<u8>>::empty());
                }
            },
            None => {
                let ghost old_ids = self.ids@;
                self.ids.push(id.0);
                self.buffers.push(fresh);
                proof {
                    assert(buffer_chunks(self.buffers@) =~= cs.push(Seq::<Seq<u8>>::empty()));
                    lemma_keyed_push(old_ids, cs, id.0, Seq::<Seq<u8>>::empty());
                }
            },
        }
    }

    /// Forgets session `id`; says whether it was there.
    pub fn remove(&mut self, id: PtyId) -> (res: bool)
        requires
            old(self).wf(),
        ensures
            final(self).wf(),
            res == old(self).sessions().dom().contains(id.0),
            final(self).sessions() == old(self).sessions().remove(id.0),
            final(self).next() == old(self).next(),
    {
        let ghost cs = buffer_chunks(self.buffers@);
        match find_id(&self.ids, id.0) {
            Some(i) => {
                let ghost old_ids = self.ids@;
                let ghost old_bs = self.buffers@;
                proof {
                    lemma_keyed_entry(old_ids, cs, i as int);
                }
                self.ids.remove(i);
                self.buffers.remove(i);
                proof {
                    assert(buffer_chunks(self.buffers@) =~= cs.remove(i as int));
                    lemma_keyed_remove(old_ids, cs, i as int);
                    assert forall|j: int| 0 <= j < self.buffers@.len() implies (#[trigger] self.buffers@[j]).wf() by {
                        let j0 = if j < i { j } else { j + 1 };
                        assert(self.buffers@[j] == old_bs[j0]);
                    }
                }
                true
            },
            None => {
                proof {
                    assert(!self.sessions().dom().contains(id.0));
                    assert(self.sessions().remove(id.0) =~= self.sessions());
                }
                false
            },
        }
    }

    /// Whether session `id` is there.
    pub fn has_session(&self, id: PtyId) -> (res: bool)
        requires
            self.wf(),
        ensures
            res == self.sessions().dom().contains(id.0),
    {
        match find_id(&self.ids, id.0) {
            Some(i) => {
                proof {
                    lemma_keyed_entry(self.ids@, buffer_chunks(self.buffers@), i as int);
                }
                true
            },
            None => false,
        }
    }

    /// The ids of the sessions, each once.
    pub fn list(&self) -> (res: Vec<PtyId>)
        requires
            self.wf(),
        ensures
            forall|a: int, b: int| 0 <= a < res@.len() && 0 <= b < res@.len() && a != b ==> (#[trigger] res@[a]).0 != (#[trigger] res@[b]).0,
            forall|k: u64| self.sessions().dom().contains(k) <==> exists|i: int| 0 <= i < res@.len() && (#[trigger] res@[i]).0 == k,
    {
        let mut out: Vec<PtyId> = Vec::new();
        let mut i: usize = 0;
        while i < self.ids.len()
            invariant
                0 <= i <= self.ids@.len(),
                out@.len() == i,
                forall|k: int| 0 <= k < i ==> (#[trigger] out@[k]).0 == self.ids@[k],
            decreases self.ids.len() - i,
        {
            out.push(PtyId(self.ids[i]));
            i = i + 1;
        }
        proof {
            assert forall|k: u64| self.sessions().dom().contains(k) <==> exists|j: int| 0 <= j < out@.len() && (#[trigger] out@[j]).0 == k by {
                if exists|j: int| 0 <= j < out@.len() && (#[trigger] out@[j]).0 == k {
                    let j = choose|j: int| 0 <= j < out@.len() && (#[trigger] out@[j]).0 == k;
                    lemma_keyed_entry(self.ids@, buffer_chunks(self.buffers@), j);
                }
                if self.sessions().dom().contains(k) {
                    let j = choose|j: int| 0 <= j < self.ids@.len() && (#[trigger] self.ids@[j])@ == k;
                    assert(out@[j].0 == k);
                }
            }
        }
        out
    }

    /// `Ok` when session `id` is there, else the `NotFound` error for it.
    pub fn lookup(&self, id: PtyId) -> (res: Result<(), PtyError>)
        requires
            self.wf(),
        ensures
            res is Ok <==> self.sessions().dom().contains(id.0),
            res is Err ==> res == Err::<(), PtyError>(PtyError::NotFound(id.0)),
    {
        if self.has_session(id) {
            Ok(())
        } else {
            Err(PtyError::NotFound(id.0))
        }
    }

    /// Keeps a chunk of output of session `id`, when it is there.
    pub fn record_output(&mut self, id: PtyId, data: &[u8])
        requires
            old(self).wf(),
            data@.len() <= usize::MAX - MAX_BUFFER_SIZE,
        ensures
            final(self).wf(),
            final(self).next() == old(self).next(),
            old(self).sessions().dom().contains(id.0) ==> final(self).sessions() == old(self).sessions().insert(
                id.0,
                trim_to(old(self).sessions()[id.0].push(data@), MAX_BUFFER_SIZE as nat),
            ),
            !old(self).sessions().dom().contains(id.0) ==> final(self).sessions() == old(self).sessions(),
    {
        let ghost cs = buffer_chunks(self.buffers@);
        match find_id(&self.ids, id.0) {
            Some(i) => {
                proof {
                    lemma_keyed_entry(self.ids@, cs, i as int);
                }
                let ghost old_bs = self.buffers@;
                self.buffers[i].push(data);
                proof {
                    let nb = trim_to(cs[i as int].push(data@), MAX_BUFFER_SIZE as nat);
                    assert(buffer_chunks(self.buffers@) =~= cs.update(i as int, nb));
                    lemma_keyed_set(self.ids@, cs, i as int, nb);
                    assert forall|j: int| 0 <= j < self.buffers@.len() implies (#[trigger] self.buffers@[j]).wf() by {
                        if j != i {
                            assert(self.buffers@[j] == old_bs[j]);
                        }
                    }
                }
            },
            None => {
                proof {
                    assert(!self.sessions().dom().contains(id.0));
                }
            },
        }
    }

    /// The last `max_bytes` bytes of output kept for session `id`.
    pub fn recent_output(&self, id: PtyId, max_bytes: usize) -> (res: Result<Vec<u8>, PtyError>)
        requires
            self.wf(),
        ensures
            match res {
                Ok(v) => self.sessions().dom().contains(id.0) && v@ == recent_bytes(
                    concat_chunks(self.sessions()[id.0]),
                    max_bytes as nat,
                ),
                Err(e) => !self.sessions().dom().contains(id.0) && e == PtyError::NotFound(id.0),
            },
    {
        match find_id(&self.ids, id.0) {
            Some(i) => {
                proof {
                    lemma_keyed_entry(self.ids@, buffer_chunks(self.buffers@), i as int);
                }
                Ok(self.buffers[i].recent_output(max_bytes))
            },
            None => Err(PtyError::NotFound(id.0)),
        }
    }

    /// All output kept for session `id`.
    pub fn full_output(&self, id: PtyId) -> (res: Result<Vec<u8>, PtyError>)
        requires
            self.wf(),
        ensures
            match res {
                Ok(v) => self.sessions().dom().contains(id.0) && v@ == concat_chunks(self.sessions()[id.0]),
                Err(e) => !self.sessions().dom().contains(id.0) && e == PtyError::NotFound(id.0),
            },
    {
        match find_id(&self.ids, id.0) {
            Some(i) => {
                proof {
                    lemma_keyed_entry(self.ids@, buffer_chunks(self.buffers@), i as int);
                }
                Ok(self.buffers[i].full_output())
            },
            None => Err(PtyError::NotFound(id.0)),
        }
    }
}

} // verus!
