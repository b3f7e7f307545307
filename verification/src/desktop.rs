//! Where the desktop app finds the daemon's files, and what it reads from
//! them.

use vstd::prelude::*;
use crate::text::{chars_of, decimal, push_char, push_decimal, push_str};

verus! {

/// `base` joined with the relative component `comp`: a `/` goes between
/// them unless `base` is empty or already ends with one.
pub open spec fn path_join(base: Seq<char>, comp: Seq<char>) -> Seq<char> {
    if base.len() == 0 {
        comp
    } else if base.last() == '/' {
        base + comp
    } else {
        base + "/"@ + comp
    }
}

/// Joins the relative component `comp` onto `base`.
fn join(base: &str, comp: &str) -> (res: String)
    ensures
        res@ == path_join(base@, comp@),
{
    let mut out = String::new();
    push_str(&mut out, base);
    let cs = chars_of(base);
    if cs.len() > 0 && cs[cs.len() - 1] != '/' {
        push_str(&mut out, "/");
    }
    push_str(&mut out, comp);
    out
}

/// The directories the daemon files live in.
#[derive(Clone, Debug)]
pub struct CrabCityConfig {
    pub data_dir: String,
    pub logs_dir: String,
}

impl CrabCityConfig {
    /// The layout rooted at `data_dir`: logs under `logs`.
    pub fn from_data_dir(data_dir: String) -> (res: Self)
        ensures
            res.data_dir@ == data_dir@,
            res.logs_dir@ == path_join(data_dir@, "logs"@),
    {
        let logs_dir = join(data_dir.as_str(), "logs");
        CrabCityConfig { data_dir, logs_dir }
    }

    /// `<data_dir>/state`.
    pub fn state_dir(&self) -> (res: String)
        ensures
            res@ == path_join(self.data_dir@, "state"@),
    {
        join(self.data_dir.as_str(), "state")
    }

    /// `<data_dir>/state/daemon.pid`.
    pub fn daemon_pid_path(&self) -> (res: String)
        ensures
            res@ == path_join(path_join(self.data_dir@, "state"@), "daemon.pid"@),
    {
        let state = self.state_dir();
        join(state.as_str(), "daemon.pid")
    }

    /// `<data_dir>/state/daemon.port`.
    pub fn daemon_port_path(&self) -> (res: String)
        ensures
            res@ == path_join(path_join(self.data_dir@, "state"@), "daemon.port"@),
    {
        let state = self.state_dir();
        join(state.as_str(), "daemon.port")
    }

    /// `<logs_dir>/daemon.log`.
    pub fn daemon_log_path(&self) -> (res: String)
        ensures
            res@ == path_join(self.logs_dir@, "daemon.log"@),
    {
        join(self.logs_dir.as_str(), "daemon.log")
    }

    /// `<logs_dir>/daemon.err`.
    pub fn daemon_err_path(&self) -> (res: String)
        ensures
            res@ == path_join(self.logs_dir@, "daemon.err"@),
    {
        join(self.logs_dir.as_str(), "daemon.err")
    }
}

/// A running daemon: its process id, port and host.
#[derive(Debug, Clone)]
pub struct DaemonInfo {
    pub pid: u32,
    pub port: u16,
    pub host: String,
}

impl DaemonInfo {
    /// `http://<host>:<port>`.
    pub fn base_url(&self) -> (res: String)
        ensures
            res@ == "http://"@ + self.host@ + ":"@ + decimal(self.port as nat),
    {
        let mut out = String::new();
        push_str(&mut out, "http://");
        push_str(&mut out, self.host.as_str());
        push_str(&mut out, ":");
        push_decimal(&mut out, self.port as u64);
        out
    }
}

/// The characters with the Unicode `White_Space` property.
pub open spec fn is_whitespace(c: char) -> bool {
    ||| '\u{9}' <= c <= '\u{d}'
    ||| c == ' '
    ||| c == '\u{85}'
    ||| c == '\u{a0}'
    ||| c == '\u{1680}'
    ||| '\u{2000}' <= c <= '\u{200a}'
    ||| c == '\u{2028}'
    ||| c == '\u{2029}'
    ||| c == '\u{202f}'
    ||| c == '\u{205f}'
    ||| c == '\u{3000}'
}

fn is_whitespace_exec(c: char) -> (res: bool)
    ensures
        res == is_whitespace(c),
{
    ('\u{9}' <= c && c <= '\u{d}') || c == ' ' || c == '\u{85}' || c == '\u{a0}' || c == '\u{1680}' || (
    '\u{2000}' <= c && c <= '\u{200a}') || c == '\u{2028}' || c == '\u{2029}' || c == '\u{202f}' || c
        == '\u{205f}' || c == '\u{3000}'
}

/// `s` without its leading and trailing whitespace, as positions
/// `lo..hi`: everything outside is whitespace, and the first and last
/// characters inside are not.
pub open spec fn trimmed_at(s: Seq<char>, lo: int, hi: int) -> bool {
    &&& 0 <= lo <= hi <= s.len()
    &&& forall|i: int| 0 <= i < lo ==> is_whitespace(#[trigger] s[i])
    &&& forall|i: int| hi <= i < s.len() ==> is_whitespace(#[trigger] s[i])
    &&& lo < hi ==> !is_whitespace(s[lo]) && !is_whitespace(s[hi - 1])
    &&& lo == hi ==> lo == s.len()
}

/// The value of a string of ASCII decimal digits.
pub open spec fn digits_value(d: Seq<char>) -> nat
    decreases d.len(),
{
    if d.len() == 0 {
        0
    } else {
        10 * digits_value(d.drop_last()) + (d.last() as nat - '0' as nat) as nat
    }
}

/// All characters are ASCII decimal digits.
pub open spec fn all_digits(d: Seq<char>) -> bool {
    forall|i: int| 0 <= i < d.len() ==> '0' <= #[trigger] d[i] <= '9'
}

/// The digits of an unsigned number: `t` less an optional leading `+`.
pub open spec fn unsigned_digits(t: Seq<char>) -> Seq<char> {
    if t.len() > 0 && t[0] == '+' {
        t.drop_first()
    } else {
        t
    }
}

/// What parsing `t` as an unsigned integer no larger than `max` gives: an
/// optional `+`, then one or more decimal digits.
pub open spec fn parse_unsigned(t: Seq<char>, max: nat) -> Option<nat> {
    let d = unsigned_digits(t);
    if d.len() == 0 || !all_digits(d) || digits_value(d) > max {
        None
    } else {
        Some(digits_value(d))
    }
}

/// Parses `text`, less surrounding whitespace, as an unsigned integer no
/// larger than `max`.
fn parse_trimmed(text: &str, max: u64) -> (res: Option<u64>)
    requires
        max <= u32::MAX,
    ensures
        exists|lo: int, hi: int|
            trimmed_at(text@, lo, hi) && match parse_unsigned(text@.subrange(lo, hi), max as nat) {
                Some(v) => res == Some(v as u64),
                None => res is None,
            },
{
    let cs = chars_of(text);
    let mut lo: usize = 0;
    while lo < cs.len() && is_whitespace_exec(cs[lo])
        invariant
            0 <= lo <= cs@.len(),
            cs@ == text@,
            forall|i: int| 0 <= i < lo ==> is_whitespace(#[trigger] cs@[i]),
        decreases cs.len() - lo,
    {
        lo = lo + 1;
    }
    let mut hi: usize = cs.len();
    while hi > lo && is_whitespace_exec(cs[hi - 1])
        invariant
            lo <= hi <= cs@.len(),
            cs@ == text@,
            forall|i: int| hi <= i < cs@.len() ==> is_whitespace(#[trigger] cs@[i]),
        decreases hi,
    {
        hi = hi - 1;
    }
    assert(trimmed_at(text@, lo as int, hi as int));
    let ghost t = text@.subrange(lo as int, hi as int);
    let mut start = lo;
    if start < hi && cs[start] == '+' {
        start = start + 1;
    }
    let ghost d = text@.subrange(start as int, hi as int);
    assert(d =~= unsigned_digits(t));
    if start == hi {
        return None;
    }
    let mut v: u64 = 0;
    let mut k: usize = start;
    while k < hi
        invariant
            start <= k <= hi <= cs@.len(),
            cs@ == text@,
            d == text@.subrange(start as int, hi as int),
            t == text@.subrange(lo as int, hi as int),
            d == unsigned_digits(t),
            trimmed_at(text@, lo as int, hi as int),
            all_digits(text@.subrange(start as int, k as int)),
            v == digits_value(text@.subrange(start as int, k as int)),
            v <= max,
            max <= u32::MAX,
        decreases hi - k,
    {
        let c = cs[k];
        assert(text@.subrange(start as int, k + 1).drop_last() =~= text@.subrange(start as int, k as int));
        if c < '0' || c > '9' {
            assert(!all_digits(d)) by {
                assert(d[k - start] == c);
            }
            return None;
        }
        let digit: u64 = (c as u32 - '0' as u32) as u64;
        let next: u64 = v * 10 + digit;
        if next > max {
            proof {
                if all_digits(d) {
                    lemma_digits_value_prefix(d, (k + 1 - start) as int);
                    assert(d.subrange(0, k + 1 - start) =~= text@.subrange(start as int, k + 1));
                }
            }
            return None;
        }
        v = next;
        k = k + 1;
    }
    Some(v)
}

/// The value of digits is at least the value of any prefix of them.
proof fn lemma_digits_value_prefix(d: Seq<char>, n: int)
    requires
        0 <= n <= d.len(),
        all_digits(d),
    ensures
        digits_value(d.subrange(0, n)) <= digits_value(d),
    decreases d.len() - n,
{
    if n < d.len() {
        lemma_digits_value_prefix(d.drop_last(), n);
        assert(d.drop_last().subrange(0, n) =~= d.subrange(0, n));
        assert('0' <= d.last() <= '9');
    } else {
        assert(d.subrange(0, n) =~= d);
    }
}

/// The process id in the text of a pid file.
pub fn parse_pid(text: &str) -> (res: Option<u32>)
    ensures
        res == parse_pid_result(text@),
{
    let r = parse_trimmed(text, u32::MAX as u64);
    let res = match r {
        Some(v) => Some(v as u32),
        None => None,
    };
    proof {
        lemma_parse_result_pid(text@, res);
    }
    res
}

/// The port in the text of a port file.
pub fn parse_port(text: &str) -> (res: Option<u16>)
    ensures
        res == parse_port_result(text@),
{
    let r = parse_trimmed(text, u16::MAX as u64);
    let res = match r {
        Some(v) => Some(v as u16),
        None => None,
    };
    proof {
        lemma_parse_result_port(text@, res);
    }
    res
}

/// The daemon found from the text of its pid and port files, on the local
/// host.
pub fn daemon_from_files(pid_text: &str, port_text: &str) -> (res: Option<DaemonInfo>)
    ensures
        match (parse_pid_result(pid_text@), parse_port_result(port_text@)) {
            (Some(pid), Some(port)) => res matches Some(info) && info.pid == pid && info.port == port
                && info.host@ == "127.0.0.1"@,
            _ => res is None,
        },
{
    let pid = parse_pid(pid_text);
    let port = parse_port(port_text);
    match (pid, port) {
        (Some(pid), Some(port)) => Some(DaemonInfo { pid, port, host: "127.0.0.1".to_owned() }),
        _ => None,
    }
}

/// The unique trim of `s`.
pub open spec fn trim_bounds(s: Seq<char>) -> (int, int) {
    choose|lo: int, hi: int| trimmed_at(s, lo, hi)
}

/// What parsing a pid file's text gives.
pub open spec fn parse_pid_result(s: Seq<char>) -> Option<u32> {
    let (lo, hi) = trim_bounds(s);
    match parse_unsigned(s.subrange(lo, hi), u32::MAX as nat) {
        Some(v) => Some(v as u32),
        None => None,
    }
}

/// What parsing a port file's text gives.
pub open spec fn parse_port_result(s: Seq<char>) -> Option<u16> {
    let (lo, hi) = trim_bounds(s);
    match parse_unsigned(s.subrange(lo, hi), u16::MAX as nat) {
        Some(v) => Some(v as u16),
        None => None,
    }
}

/// A text has one trim.
proof fn lemma_trim_unique(s: Seq<char>, lo1: int, hi1: int, lo2: int, hi2: int)
    requires
        trimmed_at(s, lo1, hi1),
        trimmed_at(s, lo2, hi2),
    ensures
        lo1 == lo2,
        hi1 == hi2,
{
    if lo1 < hi1 && lo2 < hi2 {
        if lo2 < lo1 {
            assert(is_whitespace(s[lo2]));
        }
        if lo1 < lo2 {
            assert(is_whitespace(s[lo1]));
        }
        if hi2 > hi1 {
            assert(is_whitespace(s[hi2 - 1]));
        }
        if hi1 > hi2 {
            assert(is_whitespace(s[hi1 - 1]));
        }
    } else if lo1 < hi1 {
        assert(is_whitespace(s[lo1]));
    } else if lo2 < hi2 {
        assert(is_whitespace(s[lo2]));
    }
}

proof fn lemma_parse_result_pid(s: Seq<char>, res: Option<u32>)
    requires
        exists|lo: int, hi: int|
            trimmed_at(s, lo, hi) && match parse_unsigned(s.subrange(lo, hi), u32::MAX as nat) {
                Some(v) => res == Some(v as u32),
                None => res is None,
            },
    ensures
        res == parse_pid_result(s),
{
    let (lo, hi) = choose|lo: int, hi: int|
        trimmed_at(s, lo, hi) && match parse_unsigned(s.subrange(lo, hi), u32::MAX as nat) {
            Some(v) => res == Some(v as u32),
            None => res is None,
        };
    let (l2, h2) = trim_bounds(s);
    lemma_trim_unique(s, lo, hi, l2, h2);
}

proof fn lemma_parse_result_port(s: Seq<char>, res: Option<u16>)
    requires
        exists|lo: int, hi: int|
            trimmed_at(s, lo, hi) && match parse_unsigned(s.subrange(lo, hi), u16::MAX as nat) {
                Some(v) => res == Some(v as u16),
                None => res is None,
            },
    ensures
        res == parse_port_result(s),
{
    let (lo, hi) = choose|lo: int, hi: int|
        trimmed_at(s, lo, hi) && match parse_unsigned(s.subrange(lo, hi), u16::MAX as nat) {
            Some(v) => res == Some(v as u16),
            None => res is None,
        };
    let (l2, h2) = trim_bounds(s);
    lemma_trim_unique(s, lo, hi, l2, h2);
}

/// `s` without leading and trailing whitespace (`str::trim`).
pub open spec fn trimmed(s: Seq<char>) -> Seq<char> {
    s.subrange(trim_bounds(s).0, trim_bounds(s).1)
}

/// `text` without leading and trailing whitespace.
pub fn trim(text: &str) -> (res: String)
    ensures
        res@ == trimmed(text@),
{
    let cs = chars_of(text);
    let mut lo: usize = 0;
    while lo < cs.len() && is_whitespace_exec(cs[lo])
        invariant
            0 <= lo <= cs@.len(),
            cs@ == text@,
            forall|i: int| 0 <= i < lo ==> is_whitespace(#[trigger] cs@[i]),
        decreases cs.len() - lo,
    {
        lo = lo + 1;
    }
    let mut hi: usize = cs.len();
    while hi > lo && is_whitespace_exec(cs[hi - 1])
        invariant
            lo <= hi <= cs@.len(),
            cs@ == text@,
            forall|i: int| hi <= i < cs@.len() ==> is_whitespace(#[trigger] cs@[i]),
        decreases hi,
    {
        hi = hi - 1;
    }
    assert(trimmed_at(text@, lo as int, hi as int));
    proof {
        let (l2, h2) = trim_bounds(text@);
        lemma_trim_unique(text@, lo as int, hi as int, l2, h2);
    }
    let mut out = String::new();
    let mut k: usize = lo;
    while k < hi
        invariant
            lo <= k <= hi <= cs@.len(),
            cs@ == text@,
            out@ == text@.subrange(lo as int, k as int),
        decreases hi - k,
    {
        push_char(&mut out, cs[k]);
        assert(text@.subrange(lo as int, k + 1) =~= text@.subrange(lo as int, k as int).push(text@[k as int]));
        k = k + 1;
    }
    out
}

/// How long to wait for a started daemon to answer (ten seconds).
pub const DAEMON_START_TIMEOUT_MS: u64 = 10000;

/// How long to sleep between checks for a started daemon.
pub const DAEMON_POLL_INTERVAL_MS: u64 = 100;

/// Where making sure a daemon runs has got to.
#[derive(Debug, Clone)]
pub enum EnsureState {
    /// Nothing done yet.
    Begin,
    /// Looking for a running daemon.
    Checking,
    /// Asking the daemon found whether it is healthy.
    CheckingHealth(DaemonInfo),
    /// Removing the files of an unhealthy daemon.
    Clearing,
    /// Starting a daemon.
    Starting,
    /// Waiting for the started daemon: time is checked next.
    Waiting,
    /// Sleeping before the next look.
    Sleeping,
    /// Looking for the started daemon; `second` on the look made because
    /// its port file exists.
    Polling { second: bool },
    /// Asking the started daemon whether it is healthy.
    PollingHealth { info: DaemonInfo, second: bool },
    /// Looking for the started daemon's port file.
    CheckingPortFile,
    /// Finished.
    Done,
}

/// What the desktop app reports back after an action.
#[derive(Debug)]
pub enum EnsureEvent {
    /// Nothing to report (the first step, files removed, a sleep over).
    Proceed,
    /// The daemon found from its files, if any.
    Found(Option<DaemonInfo>),
    /// Whether the daemon answered its health check.
    Health(bool),
    /// Whether starting the daemon worked, with the error if not.
    Started(Result<(), String>),
    /// Milliseconds since the daemon was started.
    Elapsed(u64),
    /// Whether the daemon's port file exists.
    PortFile(bool),
}

/// What the desktop app does next.
#[derive(Debug, Clone)]
pub enum EnsureAction {
    /// Read the daemon's files and check its process.
    CheckDaemon,
    /// Ask the daemon for its health.
    HealthCheck(DaemonInfo),
    /// Remove the pid and port files.
    RemoveFiles,
    /// Start a daemon.
    StartDaemon,
    /// Report the time since the start.
    CheckElapsed,
    /// Sleep this many milliseconds.
    Sleep(u64),
    /// Report whether the port file exists.
    CheckPortFile,
    /// Done: this daemon runs; whether it was started here.
    Finish(DaemonInfo, bool),
    /// Give up with this error.
    Fail(String),
}

/// The message given when a started daemon never answered.
pub open spec fn timeout_message(err_log: Seq<char>) -> Seq<char> {
    "Timed out waiting for daemon to start. Check logs at: "@ + err_log
}

/// One step of making sure a daemon runs. A healthy running daemon is
/// used as it is; an unhealthy one has its files removed and a new daemon
/// is started. A started daemon is looked for every
/// `DAEMON_POLL_INTERVAL_MS` until it answers its health check, looking a
/// second time when its port file exists, and given up on once more than
/// `DAEMON_START_TIMEOUT_MS` have passed. An event that does not fit the
/// state ends in failure.
pub open spec fn ensure_step(state: EnsureState, event: EnsureEvent, err_log: Seq<char>) -> (EnsureState, Option<EnsureAction>) {
    match (state, event) {
        (EnsureState::Begin, EnsureEvent::Proceed) => (EnsureState::Checking, Some(EnsureAction::CheckDaemon)),
        (EnsureState::Checking, EnsureEvent::Found(Some(info))) => (
            EnsureState::CheckingHealth(info),
            Some(EnsureAction::HealthCheck(info)),
        ),
        (EnsureState::Checking, EnsureEvent::Found(None)) => (EnsureState::Starting, Some(EnsureAction::StartDaemon)),
        (EnsureState::CheckingHealth(info), EnsureEvent::Health(true)) => (
            EnsureState::Done,
            Some(EnsureAction::Finish(info, false)),
        ),
        (EnsureState::CheckingHealth(_), EnsureEvent::Health(false)) => (
            EnsureState::Clearing,
            Some(EnsureAction::RemoveFiles),
        ),
        (EnsureState::Clearing, EnsureEvent::Proceed) => (EnsureState::Starting, Some(EnsureAction::StartDaemon)),
        (EnsureState::Starting, EnsureEvent::Started(Ok(()))) => (EnsureState::Waiting, Some(EnsureAction::CheckElapsed)),
        (EnsureState::Starting, EnsureEvent::Started(Err(_))) => (EnsureState::Done, None),
        (EnsureState::Waiting, EnsureEvent::Elapsed(ms)) => if ms > DAEMON_START_TIMEOUT_MS {
            (EnsureState::Done, None)
        } else {
            (EnsureState::Sleeping, Some(EnsureAction::Sleep(DAEMON_POLL_INTERVAL_MS)))
        },
        (EnsureState::Sleeping, EnsureEvent::Proceed) => (
            EnsureState::Polling { second: false },
            Some(EnsureAction::CheckDaemon),
        ),
        (EnsureState::Polling { second }, EnsureEvent::Found(Some(info))) => (
            EnsureState::PollingHealth { info, second },
            Some(EnsureAction::HealthCheck(info)),
        ),
        (EnsureState::Polling { second }, EnsureEvent::Found(None)) => if second {
            (EnsureState::Waiting, Some(EnsureAction::CheckElapsed))
        } else {
            (EnsureState::CheckingPortFile, Some(EnsureAction::CheckPortFile))
        },
        (EnsureState::PollingHealth { info, .. }, EnsureEvent::Health(true)) => (
            EnsureState::Done,
            Some(EnsureAction::Finish(info, true)),
        ),
        (EnsureState::PollingHealth { second, .. }, EnsureEvent::Health(false)) => if second {
            (EnsureState::Waiting, Some(EnsureAction::CheckElapsed))
        } else {
            (EnsureState::CheckingPortFile, Some(EnsureAction::CheckPortFile))
        },
        (EnsureState::CheckingPortFile, EnsureEvent::PortFile(true)) => (
            EnsureState::Polling { second: true },
            Some(EnsureAction::CheckDaemon),
        ),
        (EnsureState::CheckingPortFile, EnsureEvent::PortFile(false)) => (
            EnsureState::Waiting,
            Some(EnsureAction::CheckElapsed),
        ),
        _ => (EnsureState::Done, None),
    }
}

/// The failure that ends making sure a daemon runs, when the step fails:
/// the start error, the timeout, or an event that does not fit.
pub open spec fn ensure_failure(state: EnsureState, event: EnsureEvent, err_log: Seq<char>) -> Seq<char> {
    match (state, event) {
        (EnsureState::Starting, EnsureEvent::Started(Err(e))) => e@,
        (EnsureState::Waiting, EnsureEvent::Elapsed(_)) => timeout_message(err_log),
        _ => "unexpected event"@,
    }
}

/// A copy of daemon info.
fn copy_info(info: &DaemonInfo) -> (res: DaemonInfo)
    ensures
        res.pid == info.pid,
        res.port == info.port,
        res.host@ == info.host@,
{
    DaemonInfo { pid: info.pid, port: info.port, host: info.host.clone() }
}

/// The two daemon infos are the same.
pub open spec fn same_info(a: DaemonInfo, b: DaemonInfo) -> bool {
    a.pid == b.pid && a.port == b.port && a.host@ == b.host@
}

/// The two actions are the same, up to copies of daemon info.
pub open spec fn same_action(a: EnsureAction, b: EnsureAction) -> bool {
    match (a, b) {
        (EnsureAction::HealthCheck(x), EnsureAction::HealthCheck(y)) => same_info(x, y),
        (EnsureAction::Finish(x, p), EnsureAction::Finish(y, q)) => same_info(x, y) && p == q,
        (EnsureAction::Fail(x), EnsureAction::Fail(y)) => x@ == y@,
        (EnsureAction::CheckDaemon, EnsureAction::CheckDaemon) => true,
        (EnsureAction::RemoveFiles, EnsureAction::RemoveFiles) => true,
        (EnsureAction::StartDaemon, EnsureAction::StartDaemon) => true,
        (EnsureAction::CheckElapsed, EnsureAction::CheckElapsed) => true,
        (EnsureAction::Sleep(x), EnsureAction::Sleep(y)) => x == y,
        (EnsureAction::CheckPortFile, EnsureAction::CheckPortFile) => true,
        _ => false,
    }
}

/// The two states are the same, up to copies of daemon info.
pub open spec fn same_state(a: EnsureState, b: EnsureState) -> bool {
    match (a, b) {
        (EnsureState::CheckingHealth(x), EnsureState::CheckingHealth(y)) => same_info(x, y),
        (EnsureState::PollingHealth { info: x, second: p }, EnsureState::PollingHealth { info: y, second: q }) => same_info(x, y) && p == q,
        (EnsureState::Polling { second: p }, EnsureState::Polling { second: q }) => p == q,
        (EnsureState::Begin, EnsureState::Begin) => true,
        (EnsureState::Checking, EnsureState::Checking) => true,
        (EnsureState::Clearing, EnsureState::Clearing) => true,
        (EnsureState::Starting, EnsureState::Starting) => true,
        (EnsureState::Waiting, EnsureState::Waiting) => true,
        (EnsureState::Sleeping, EnsureState::Sleeping) => true,
        (EnsureState::CheckingPortFile, EnsureState::CheckingPortFile) => true,
        (EnsureState::Done, EnsureState::Done) => true,
        _ => false,
    }
}

/// One step of making sure a daemon runs, as `ensure_step` says: the next
/// state and the action to take; a step that fails gives `Fail` with the
/// message `ensure_failure` says.
pub fn ensure_daemon_step(state: &EnsureState, event: &EnsureEvent, err_log: &str) -> (res: (EnsureState, EnsureAction))
    ensures
        same_state(res.0, ensure_step(*state, *event, err_log@).0),
        match ensure_step(*state, *event, err_log@).1 {
            Some(a) => same_action(res.1, a),
            None => res.1 matches EnsureAction::Fail(m) && m@ == ensure_failure(*state, *event, err_log@),
        },
{
    match (state, event) {
        (EnsureState::Begin, EnsureEvent::Proceed) => (EnsureState::Checking, EnsureAction::CheckDaemon),
        (EnsureState::Checking, EnsureEvent::Found(Some(info))) => (
            EnsureState::CheckingHealth(copy_info(info)),
            EnsureAction::HealthCheck(copy_info(info)),
        ),
        (EnsureState::Checking, EnsureEvent::Found(None)) => (EnsureState::Starting, EnsureAction::StartDaemon),
        (EnsureState::CheckingHealth(info), EnsureEvent::Health(ok)) => if *ok {
            (EnsureState::Done, EnsureAction::Finish(copy_info(info), false))
        } else {
            (EnsureState::Clearing, EnsureAction::RemoveFiles)
        },
        (EnsureState::Clearing, EnsureEvent::Proceed) => (EnsureState::Starting, EnsureAction::StartDaemon),
        (EnsureState::Starting, EnsureEvent::Started(r)) => match r {
            Ok(()) => (EnsureState::Waiting, EnsureAction::CheckElapsed),
            Err(e) => (EnsureState::Done, EnsureAction::Fail(e.clone())),
        },
        (EnsureState::Waiting, EnsureEvent::Elapsed(ms)) => if *ms > DAEMON_START_TIMEOUT_MS {
            let mut m = String::new();
            push_str(&mut m, "Timed out waiting for daemon to start. Check logs at: ");
            push_str(&mut m, err_log);
            (EnsureState::Done, EnsureAction::Fail(m))
        } else {
            (EnsureState::Sleeping, EnsureAction::Sleep(DAEMON_POLL_INTERVAL_MS))
        },
        (EnsureState::Sleeping, EnsureEvent::Proceed) => (EnsureState::Polling { second: false }, EnsureAction::CheckDaemon),
        (EnsureState::Polling { second }, EnsureEvent::Found(found)) => match found {
            Some(info) => (
                EnsureState::PollingHealth { info: copy_info(info), second: *second },
                EnsureAction::HealthCheck(copy_info(info)),
            ),
            None => if *second {
                (EnsureState::Waiting, EnsureAction::CheckElapsed)
            } else {
                (EnsureState::CheckingPortFile, EnsureAction::CheckPortFile)
            },
        },
        (EnsureState::PollingHealth { info, second }, EnsureEvent::Health(ok)) => if *ok {
            (EnsureState::Done, EnsureAction::Finish(copy_info(info), true))
        } else if *second {
            (EnsureState::Waiting, EnsureAction::CheckElapsed)
        } else {
            (EnsureState::CheckingPortFile, EnsureAction::CheckPortFile)
        },
        (EnsureState::CheckingPortFile, EnsureEvent::PortFile(exists)) => if *exists {
            (EnsureState::Polling { second: true }, EnsureAction::CheckDaemon)
        } else {
            (EnsureState::Waiting, EnsureAction::CheckElapsed)
        },
        _ => (EnsureState::Done, EnsureAction::Fail("unexpected event".to_owned())),
    }
}

} // verus!
