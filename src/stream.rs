//! Control of an interactive streaming run. The caller reads lines, runs
//! synthesis and writes bytes; the session decides what happens next. The
//! stream header goes out when the session opens, before any chunk.
use vstd::prelude::*;
use crate::text::{trim_text, trimmed};
use crate::wav::{encode_samples, samples_le, streaming_header, streaming_header_spec};

verus! {

/// Where a streaming run stands.
#[derive(Clone, Copy, Debug, PartialEq, Eq, Structural)]
pub enum Phase {
    /// Waiting for the next input line.
    AwaitingLine,
    /// Waiting for the synthesis of the last accepted line.
    Synthesizing,
    /// Input has ended; nothing more happens.
    Closed,
}

/// What the caller reports to the session.
#[derive(Clone, Debug, PartialEq, Eq)]
pub enum StreamEvent {
    /// A line was read from the input.
    Line(String),
    /// Synthesis succeeded with these sample words (the bit patterns of the
    /// 32-bit float samples).
    Audio(Vec<u32>),
    /// Synthesis of the line failed.
    Failed,
    /// The input has no more lines.
    EndOfInput,
}

/// What the session asks the caller to do next.
#[derive(Clone, Debug, PartialEq, Eq)]
pub enum StreamAction {
    /// Synthesize this text.
    Synthesize(String),
    /// Write these bytes to the audio sink and flush it, then read the next line.
    Emit(Vec<u8>),
    /// Report the failure on the error channel, then read the next line.
    Report,
    /// The line was blank: read the next line.
    Skip,
    /// Input has ended: close the run.
    Stop,
    /// The event does not fit the current phase; nothing changed.
    Rejected,
}

/// The phase after `e` arrives in phase `p`; the text of a line is taken as
/// already trimmed.
pub open spec fn next_phase(p: Phase, e: StreamEvent) -> Phase {
    match (p, e) {
        (Phase::AwaitingLine, StreamEvent::Line(s)) => if s@.len() == 0 {
            Phase::AwaitingLine
        } else {
            Phase::Synthesizing
        },
        (Phase::AwaitingLine, StreamEvent::EndOfInput) => Phase::Closed,
        (Phase::Synthesizing, StreamEvent::Audio(_)) => Phase::AwaitingLine,
        (Phase::Synthesizing, StreamEvent::Failed) => Phase::AwaitingLine,
        _ => p,
    }
}

/// `a` is the action owed when `e` arrives in phase `p`; the text of a line
/// is taken as already trimmed.
pub open spec fn action_spec(p: Phase, e: StreamEvent, a: StreamAction) -> bool {
    match (p, e) {
        (Phase::AwaitingLine, StreamEvent::Line(s)) => if s@.len() == 0 {
            a == StreamAction::Skip
        } else {
            a matches StreamAction::Synthesize(t) && t@ == s@
        },
        (Phase::AwaitingLine, StreamEvent::EndOfInput) => a == StreamAction::Stop,
        (Phase::Synthesizing, StreamEvent::Audio(v)) => a matches StreamAction::Emit(b) && b@
            == samples_le(v@),
        (Phase::Synthesizing, StreamEvent::Failed) => a == StreamAction::Report,
        _ => a == StreamAction::Rejected,
    }
}

/// The bytes written to the sink when `e` arrives in phase `p`, if any.
pub open spec fn emitted(p: Phase, e: StreamEvent) -> Option<Seq<u8>> {
    match (p, e) {
        (Phase::Synthesizing, StreamEvent::Audio(v)) => Some(samples_le(v@)),
        _ => None,
    }
}

/// The phase reached, and every block of bytes written in order, after a run
/// that has seen `evs` (lines trimmed). Opening writes the header.
pub open spec fn run(evs: Seq<StreamEvent>) -> (Phase, Seq<Seq<u8>>)
    decreases evs.len(),
{
    if evs.len() == 0 {
        (Phase::AwaitingLine, seq![streaming_header_spec()])
    } else {
        let (p, w) = run(evs.drop_last());
        let e = evs.last();
        (
            next_phase(p, e),
            match emitted(p, e) {
                Some(b) => w.push(b),
                None => w,
            },
        )
    }
}

/// `e` is `raw` with the text of a line trimmed.
pub open spec fn trimmed_event(raw: StreamEvent, e: StreamEvent) -> bool {
    match raw {
        StreamEvent::Line(s) => e matches StreamEvent::Line(t) && t@ == trimmed(s@),
        _ => e == raw,
    }
}

/// `b` is the chunk of some sample words.
pub open spec fn is_chunk(b: Seq<u8>) -> bool {
    exists|v: Seq<u32>| #[trigger] samples_le(v) == b
}

/// Every run writes the stream header first, before any chunk and whatever
/// events follow, and writes it once: each later block is the chunk of one
/// successful synthesis.
pub proof fn lemma_header_first(evs: Seq<StreamEvent>)
    ensures
        run(evs).1.len() >= 1,
        run(evs).1[0] == streaming_header_spec(),
        forall|i: int| 1 <= i < run(evs).1.len() ==> is_chunk(#[trigger] run(evs).1[i]),
    decreases evs.len(),
{
    if evs.len() > 0 {
        lemma_header_first(evs.drop_last());
        let (p, w) = run(evs.drop_last());
        let e = evs.last();
        match emitted(p, e) {
            Some(b) => {
                let r = w.push(b);
                assert(r[0] == w[0]);
                assert forall|i: int| 1 <= i < r.len() implies is_chunk(#[trigger] r[i]) by {
                    if i < w.len() {
                        assert(r[i] == w[i]);
                    } else {
                        if let StreamEvent::Audio(v) = e {
                            assert(samples_le(v@) == r[i]);
                        }
                    }
                }
            },
            None => {},
        }
    }
}

/// One streaming run: its phase and the events it has seen.
pub struct StreamSession {
    pub phase: Phase,
    pub history: Ghost<Seq<StreamEvent>>,
}

impl StreamSession {
    /// The phase agrees with the events seen.
    pub open spec fn wf(&self) -> bool {
        self.phase == run(self.history@).0
    }

    /// Every block of bytes the caller has been asked to write, in order.
    pub open spec fn written(&self) -> Seq<Seq<u8>> {
        run(self.history@).1
    }

    /// Opens a run and returns the header to write and flush before reading
    /// any line: one channel, 24000 samples per second, 32-bit samples, size
    /// fields left open.
    pub fn open() -> (r: (StreamSession, Vec<u8>))
        ensures
            r.0.wf(),
            r.0.history@ == Seq::<StreamEvent>::empty(),
            r.0.phase == Phase::AwaitingLine,
            r.0.written() == seq![r.1@],
            r.1@ == streaming_header_spec(),
    {
        let header = streaming_header();
        (StreamSession { phase: Phase::AwaitingLine, history: Ghost(Seq::empty()) }, header)
    }

    /// Takes in one event whose line, if any, is already trimmed, and says
    /// what to do next. An empty line is skipped, any other line is
    /// synthesized, audio is framed as one chunk, a failure is reported, and
    /// the end of input closes the run.
    pub fn advance(&mut self, event: StreamEvent) -> (r: StreamAction)
        requires
            old(self).wf(),
        ensures
            final(self).wf(),
            final(self).history@ == old(self).history@.push(event),
            final(self).phase == next_phase(old(self).phase, event),
            action_spec(old(self).phase, event, r),
            final(self).written() == match emitted(old(self).phase, event) {
                Some(b) => old(self).written().push(b),
                None => old(self).written(),
            },
    {
        let ghost ev = event;
        let ghost before = self.history@;
        proof {
            assert(before.push(ev).drop_last() =~= before);
        }
        self.history = Ghost(self.history@.push(ev));
        match self.phase {
            Phase::AwaitingLine => match event {
                StreamEvent::Line(s) => {
                    if s.as_str().is_empty() {
                        StreamAction::Skip
                    } else {
                        self.phase = Phase::Synthesizing;
                        StreamAction::Synthesize(s)
                    }
                },
                StreamEvent::EndOfInput => {
                    self.phase = Phase::Closed;
                    StreamAction::Stop
                },
                _ => StreamAction::Rejected,
            },
            Phase::Synthesizing => match event {
                StreamEvent::Audio(v) => {
                    self.phase = Phase::AwaitingLine;
                    StreamAction::Emit(encode_samples(&v))
                },
                StreamEvent::Failed => {
                    self.phase = Phase::AwaitingLine;
                    StreamAction::Report
                },
                _ => StreamAction::Rejected,
            },
            Phase::Closed => StreamAction::Rejected,
        }
    }

    /// Takes in one event as the caller saw it: the text of a line is
    /// trimmed first, then the event goes to `advance`. A line blank after
    /// trimming is skipped.
    pub fn step(&mut self, event: StreamEvent) -> (r: StreamAction)
        requires
            old(self).wf(),
        ensures
            final(self).wf(),
            final(self).history@.len() == old(self).history@.len() + 1,
            final(self).history@.drop_last() == old(self).history@,
            trimmed_event(event, final(self).history@.last()),
            final(self).phase == next_phase(old(self).phase, final(self).history@.last()),
            action_spec(old(self).phase, final(self).history@.last(), r),
            final(self).written() == match emitted(old(self).phase, final(self).history@.last()) {
                Some(b) => old(self).written().push(b),
                None => old(self).written(),
            },
    {
        let clean = match event {
            StreamEvent::Line(s) => StreamEvent::Line(String::from_str(trim_text(s.as_str()))),
            other => other,
        };
        let ghost ce = clean;
        let r = self.advance(clean);
        proof {
            assert(self.history@.drop_last() =~= old(self).history@);
            assert(self.history@.last() == ce);
        }
        r
    }
}

} // verus!
