//! Recorded terminal sessions: a header with the initial size, then
//! output, input and resize events; and replaying them into a virtual
//! terminal.

use vstd::prelude::*;
use crate::vt::{is_snapshot, ClientViewport, VirtualTerminal};

verus! {

/// The first value of a recording: the initial terminal size and
/// scrollback.
#[derive(Debug, Clone, PartialEq, Eq)]
pub struct VtRecordingHeader {
    pub rows: u16,
    pub cols: u16,
    pub scrollback: u32,
}

/// One recorded event, with microseconds since the recording started.
#[derive(Debug, Clone, PartialEq, Eq)]
pub enum VtEvent {
    /// PTY output bytes.
    Output { timestamp_us: u32, data: Vec<u8> },
    /// Input sent to the PTY.
    Input { timestamp_us: u32, data: Vec<u8> },
    /// Terminal resize.
    Resize { timestamp_us: u32, rows: u16, cols: u16 },
}

/// A parsed recording: header and events.
#[derive(Debug, Clone)]
pub struct VtRecording {
    pub header: VtRecordingHeader,
    pub events: Vec<VtEvent>,
}

/// Every resize in `events` has at least one row and one column.
pub open spec fn resizes_nonzero(events: Seq<VtEvent>) -> bool {
    forall|i: int|
        0 <= i < events.len() ==> (#[trigger] events[i] matches VtEvent::Resize { rows, cols, .. } ==> rows >= 1
            && cols >= 1)
}

/// The output kept since the last keyframe after replaying `events` from
/// nothing, and whether a keyframe was taken: output accumulates until it
/// would pass `max` bytes, which compacts it away.
pub open spec fn replay_buffers(events: Seq<VtEvent>, max: usize) -> (Seq<u8>, bool)
    decreases events.len(),
{
    if events.len() == 0 {
        (Seq::empty(), false)
    } else {
        let (d, k) = replay_buffers(events.drop_last(), max);
        match events.last() {
            VtEvent::Output { data, .. } => if d.len() + data@.len() > max {
                (Seq::empty(), true)
            } else {
                (d + data@, k)
            },
            _ => (d, k),
        }
    }
}

impl VtRecording {
    /// Replays the recording into a new virtual terminal of the header's
    /// size: output is processed, resizes resize the screen, input is
    /// skipped.
    pub fn replay(&self, max_delta_bytes: usize) -> (res: VirtualTerminal)
        requires
            self.header.rows >= 1,
            self.header.cols >= 1,
            resizes_nonzero(self.events@),
        ensures
            res.wf(),
            res.viewport_map() == Map::<Seq<char>, ClientViewport>::empty(),
            res.dims() == (self.header.rows, self.header.cols),
            res.max_deltas() == max_delta_bytes,
            res.deltas_view() == replay_buffers(self.events@, max_delta_bytes).0,
            res.keyframe_view() is Some <==> replay_buffers(self.events@, max_delta_bytes).1,
            res.keyframe_view() matches Some(k) ==> is_snapshot(k),
    {
        let mut vt = VirtualTerminal::new(
            self.header.rows,
            self.header.cols,
            max_delta_bytes,
            self.header.scrollback as usize,
        );
        let mut i: usize = 0;
        while i < self.events.len()
            invariant
                0 <= i <= self.events@.len(),
                resizes_nonzero(self.events@),
                vt.wf(),
                vt.viewport_map() == Map::<Seq<char>, ClientViewport>::empty(),
                vt.dims() == (self.header.rows, self.header.cols),
                vt.max_deltas() == max_delta_bytes,
                vt.deltas_view() == replay_buffers(self.events@.take(i as int), max_delta_bytes).0,
                vt.keyframe_view() is Some <==> replay_buffers(self.events@.take(i as int), max_delta_bytes).1,
                vt.keyframe_view() matches Some(k) ==> is_snapshot(k),
            decreases self.events.len() - i,
        {
            assert(self.events@.take(i + 1).drop_last() =~= self.events@.take(i as int));
            match &self.events[i] {
                VtEvent::Output { data, .. } => {
                    vt.process_output(data.as_slice());
                },
                VtEvent::Input { .. } => {},
                VtEvent::Resize { rows, cols, .. } => {
                    assert(self.events@[i as int] matches VtEvent::Resize { .. });
                    vt.resize(*rows, *cols);
                },
            }
            i = i + 1;
        }
        assert(self.events@.take(self.events@.len() as int) =~= self.events@);
        vt
    }
}

} // verus!
