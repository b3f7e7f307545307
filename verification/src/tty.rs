//! The terminal wrapper's record of a session's output: every byte as text,
//! and the most recent lines, at most `OUTPUT_BUFFER_LIMIT` of them.

use std::collections::VecDeque;
use vstd::prelude::*;
use crate::text::{chars_of, push_char, push_str};

verus! {

/// Lines of output kept (the last ten thousand).
pub const OUTPUT_BUFFER_LIMIT: usize = 10000;

/// The state of the wrapped session.
#[derive(Debug, Clone)]
pub struct PtyState {
    pub running: bool,
    pub pid: Option<u32>,
    pub command: String,
    pub args: Vec<String>,
    pub rows: u16,
    pub cols: u16,
    pub output_lines: usize,
}

/// Output of the wrapped session, as text, with the time it was read
/// (milliseconds since the Unix epoch).
#[derive(Debug, Clone)]
pub struct OutputEvent {
    pub data: String,
    pub timestamp: i64,
}

/// `line` without one carriage return at its end.
pub open spec fn strip_cr(line: Seq<char>) -> Seq<char> {
    if line.len() > 0 && line.last() == '\r' {
        line.drop_last()
    } else {
        line
    }
}

/// Splitting `s` at line feeds, left to right: the lines ended so far
/// (each without its line feed and a carriage return before it), and the
/// line not yet ended.
pub open spec fn split_lines(s: Seq<char>) -> (Seq<Seq<char>>, Seq<char>)
    decreases s.len(),
{
    if s.len() == 0 {
        (Seq::empty(), Seq::empty())
    } else {
        let (done, cur) = split_lines(s.drop_last());
        if s.last() == '\n' {
            (done.push(strip_cr(cur)), Seq::empty())
        } else {
            (done, cur.push(s.last()))
        }
    }
}

/// The lines of `s` (`str::lines`): split at `\n` and `\r\n`, without the
/// line endings; a final line ending adds no empty line.
pub open spec fn lines_of(s: Seq<char>) -> Seq<Seq<char>> {
    let (done, cur) = split_lines(s);
    if cur.len() == 0 {
        done
    } else {
        done.push(cur)
    }
}

/// The views of a list of strings.
pub open spec fn views(v: Seq<String>) -> Seq<Seq<char>> {
    v.map_values(|s: String| s@)
}

/// The lines of `s`.
pub fn lines(s: &str) -> (res: Vec<String>)
    ensures
        views(res@) == lines_of(s@),
{
    let cs = chars_of(s);
    let mut done: Vec<String> = Vec::new();
    let mut cur = String::new();
    let mut cur_len: usize = 0;
    let mut k: usize = 0;
    while k < cs.len()
        invariant
            0 <= k <= cs@.len(),
            cs@ == s@,
            cur_len == cur@.len(),
            cur_len <= k,
            (views(done@), cur@) == split_lines(s@.take(k as int)),
        decreases cs.len() - k,
    {
        let c = cs[k];
        proof {
            assert(s@.take(k + 1).drop_last() =~= s@.take(k as int));
            assert(s@.take(k + 1).last() == c);
        }
        let ghost before = views(done@);
        if c == '\n' {
            let line = if ends_with_cr(&cur) {
                without_last(&cur)
            } else {
                cur.clone()
            };
            done.push(line);
            cur = String::new();
            cur_len = 0;
            proof {
                assert(views(done@) =~= before.push(line@));
                assert(cur@ =~= Seq::<char>::empty());
            }
        } else {
            push_char(&mut cur, c);
            cur_len = cur_len + 1;
            assert(views(done@) =~= before);
        }
        k = k + 1;
    }
    assert(s@.take(cs@.len() as int) =~= s@);
    if cur_len > 0 {
        let ghost before = views(done@);
        done.push(cur);
        assert(views(done@) =~= before.push(lines_of(s@).last()));
    }
    done
}

/// Whether `s` ends with a carriage return.
fn ends_with_cr(s: &String) -> (r: bool)
    ensures
        r == (s@.len() > 0 && s@.last() == '\r'),
{
    let cs = chars_of(s.as_str());
    cs.len() > 0 && cs[cs.len() - 1] == '\r'
}

/// `s` without its last character.
fn without_last(s: &String) -> (res: String)
    requires
        s@.len() > 0,
    ensures
        res@ == s@.drop_last(),
{
    let cs = chars_of(s.as_str());
    let mut out = String::new();
    let last: usize = cs.len() - 1;
    let mut i: usize = 0;
    while i < last
        invariant
            0 <= i <= last,
            last + 1 == cs@.len(),
            cs@ == s@,
            out@ == s@.take(i as int),
        decreases cs.len() - i,
    {
        push_char(&mut out, cs[i]);
        assert(s@.take(i + 1) =~= s@.take(i as int).push(s@[i as int]));
        i = i + 1;
    }
    assert(s@.take(i as int) =~= s@.drop_last());
    out
}

/// The last `n` elements of `s`, or all of it when it is shorter.
pub open spec fn keep_last<A>(s: Seq<A>, n: nat) -> Seq<A> {
    if s.len() <= n {
        s
    } else {
        s.skip(s.len() - n)
    }
}

/// Keeping the last `n` and then adding one, keeping the last `n` again,
/// is keeping the last `n` after adding it.
pub proof fn lemma_keep_last_push<A>(s: Seq<A>, x: A, n: nat)
    requires
        n > 0,
    ensures
        keep_last(keep_last(s, n).push(x), n) == keep_last(s.push(x), n),
{
    assert(keep_last(keep_last(s, n).push(x), n) =~= keep_last(s.push(x), n));
}

/// A session's output: all of it as text, and its last lines.
pub struct OutputLog {
    lines: VecDeque<String>,
    full: String,
}

impl OutputLog {
    /// The lines kept, oldest first.
    pub closed spec fn kept_lines(&self) -> Seq<Seq<char>> {
        views(self.lines@)
    }

    /// All the output.
    pub closed spec fn text(&self) -> Seq<char> {
        self.full@
    }

    /// At most `OUTPUT_BUFFER_LIMIT` lines kept.
    pub closed spec fn wf(&self) -> bool {
        self.lines@.len() <= OUTPUT_BUFFER_LIMIT
    }

    /// No output yet.
    pub fn new() -> (res: Self)
        ensures
            res.wf(),
            res.kept_lines() == Seq::<Seq<char>>::empty(),
            res.text() == Seq::<char>::empty(),
    {
        let res = OutputLog { lines: VecDeque::new(), full: String::new() };
        assert(res.kept_lines() =~= Seq::<Seq<char>>::empty());
        res
    }

    /// Records output `data`: appends it to the text, and its lines to the
    /// lines kept, dropping the oldest beyond the limit.
    pub fn record(&mut self, data: &str)
        requires
            old(self).wf(),
        ensures
            final(self).wf(),
            final(self).text() == old(self).text() + data@,
            final(self).kept_lines() == keep_last(
                old(self).kept_lines() + lines_of(data@),
                OUTPUT_BUFFER_LIMIT as nat,
            ),
    {
        push_str(&mut self.full, data);
        let new_lines = lines(data);
        let ghost start = self.kept_lines();
        proof {
            assert(start + views(new_lines@).take(0) =~= start);
        }
        let mut j: usize = 0;
        while j < new_lines.len()
            invariant
                0 <= j <= new_lines@.len(),
                self.lines@.len() <= OUTPUT_BUFFER_LIMIT,
                self.kept_lines() == keep_last(start + views(new_lines@).take(j as int), OUTPUT_BUFFER_LIMIT as nat),
                self.full@ == old(self).full@ + data@,
            decreases new_lines.len() - j,
        {
            let ghost before = self.kept_lines();
            let line = new_lines[j].clone();
            self.lines.push_back(line);
            proof {
                assert(self.kept_lines() =~= before.push(new_lines@[j as int]@));
            }
            if self.lines.len() > OUTPUT_BUFFER_LIMIT {
                let ghost full_seq = self.kept_lines();
                let _ = self.lines.pop_front();
                proof {
                    assert(self.kept_lines() =~= full_seq.drop_first());
                    assert(full_seq.drop_first() =~= keep_last(full_seq, OUTPUT_BUFFER_LIMIT as nat));
                }
            } else {
                assert(self.kept_lines() =~= keep_last(self.kept_lines(), OUTPUT_BUFFER_LIMIT as nat));
            }
            proof {
                let prefix = start + views(new_lines@).take(j as int);
                lemma_keep_last_push(prefix, new_lines@[j as int]@, OUTPUT_BUFFER_LIMIT as nat);
                assert(start + views(new_lines@).take(j + 1) =~= prefix.push(new_lines@[j as int]@));
            }
            j = j + 1;
        }
        assert(views(new_lines@).take(new_lines@.len() as int) =~= views(new_lines@));
    }

    /// The last `n` lines kept, oldest first.
    pub fn recent(&self, n: usize) -> (res: Vec<String>)
        requires
            self.wf(),
        ensures
            views(res@) == keep_last(self.kept_lines(), n as nat),
    {
        let len = self.lines.len();
        let from: usize = if len <= n {
            0
        } else {
            len - n
        };
        let mut out: Vec<String> = Vec::new();
        let mut i: usize = from;
        while i < len
            invariant
                from <= i <= len,
                len == self.lines@.len(),
                views(out@) == self.kept_lines().subrange(from as int, i as int),
            decreases len - i,
        {
            let ghost before = views(out@);
            out.push(self.lines[i].clone());
            assert(views(out@) =~= before.push(self.lines@[i as int]@));
            assert(self.kept_lines().subrange(from as int, i + 1) =~= self.kept_lines().subrange(
                from as int,
                i as int,
            ).push(self.lines@[i as int]@));
            i = i + 1;
        }
        assert(self.kept_lines().subrange(from as int, len as int) =~= keep_last(self.kept_lines(), n as nat));
        out
    }

    /// All the output.
    pub fn full_output(&self) -> (res: String)
        ensures
            res@ == self.text(),
    {
        self.full.clone()
    }

    /// How many lines are kept.
    pub fn line_count(&self) -> (res: usize)
        ensures
            res == self.kept_lines().len(),
    {
        self.lines.len()
    }
}

} // verus!
