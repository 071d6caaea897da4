//! Byte accounting for the splice pipes: each direction credits what it
//! read before writing it on, so a cancelled pipe still reports every byte
//! it had forwarded.

use vstd::prelude::*;

verus! {

/// What one step of a unidirectional pipe observed: a chunk of bytes read,
/// the end of the stream, or a failing read or write.
#[derive(Debug, Clone, Copy, PartialEq, Eq, Structural)]
pub enum PipeEvent {
    Chunk(u64),
    Eof,
    ReadError,
    WriteError,
}

/// The bytes a pipe credits over a run: every chunk up to the first stop.
/// A chunk is credited when it is read, before the write that may fail, so
/// a `WriteError` still keeps the chunk that preceded it.
pub open spec fn forwarded(events: Seq<PipeEvent>) -> int
    decreases events.len(),
{
    if events.len() == 0 {
        0
    } else {
        match events[0] {
            PipeEvent::Chunk(n) => n + forwarded(events.drop_first()),
            PipeEvent::Eof => 0,
            PipeEvent::ReadError => 0,
            PipeEvent::WriteError => 0,
        }
    }
}

pub proof fn lemma_forwarded_nonneg(events: Seq<PipeEvent>)
    ensures
        forwarded(events) >= 0,
    decreases events.len(),
{
    if events.len() > 0 {
        lemma_forwarded_nonneg(events.drop_first());
    }
}

/// The running byte tally of one pipe direction. The counter lives outside
/// the pipe loop, so a cancelled run keeps its credited bytes.
#[derive(Debug, Clone, Copy, PartialEq, Eq, Structural)]
pub struct PipeTally {
    /// Bytes credited so far.
    pub transferred: u64,
    /// True once the pipe stopped: end of stream or a failing side.
    pub done: bool,
}

impl PipeTally {
    pub fn new() -> (r: PipeTally)
        ensures
            r.transferred == 0 && !r.done,
    {
        PipeTally { transferred: 0, done: false }
    }

    /// Records one pipe step. A chunk is credited at once; any other event
    /// stops the pipe. Returns whether the pipe goes on.
    pub fn apply(&mut self, event: &PipeEvent) -> (cont: bool)
        requires
            !old(self).done,
            match *event {
                PipeEvent::Chunk(n) => old(self).transferred + n <= u64::MAX,
                _ => true,
            },
        ensures
            match *event {
                PipeEvent::Chunk(n) => final(self).transferred == old(self).transferred + n
                    && !final(self).done && cont,
                _ => final(self).transferred == old(self).transferred && final(self).done
                    && !cont,
            },
    {
        match event {
            PipeEvent::Chunk(n) => {
                self.transferred = self.transferred + *n;
                true
            },
            _ => {
                self.done = true;
                false
            },
        }
    }
}

/// Replays a whole pipe run: the final tally credits exactly the bytes
/// forwarded before the first stop, as `forwarded` defines them.
pub fn run_pipe(events: &Vec<PipeEvent>) -> (r: PipeTally)
    requires
        forwarded(events@) <= u64::MAX,
    ensures
        r.transferred == forwarded(events@),
{
    let mut tally = PipeTally::new();
    let mut i: usize = 0;
    proof {
        assert(events@.skip(0) =~= events@);
    }
    while i < events.len()
        invariant
            i <= events@.len(),
            forwarded(events@) <= u64::MAX,
            !tally.done,
            tally.transferred + forwarded(events@.skip(i as int)) == forwarded(events@),
        decreases events@.len() - i,
    {
        let ev = events[i];
        proof {
            assert(events@.skip(i as int)[0] == ev);
            assert(events@.skip(i as int).drop_first() =~= events@.skip(i + 1));
            lemma_forwarded_nonneg(events@.skip(i + 1));
            lemma_forwarded_nonneg(events@.skip(i as int));
        }
        let cont = tally.apply(&ev);
        if !cont {
            proof {
                assert(forwarded(events@.skip(i as int)) == 0);
            }
            return tally;
        }
        i = i + 1;
    }
    proof {
        assert(events@.skip(events@.len() as int) =~= Seq::<PipeEvent>::empty());
    }
    tally
}

} // verus!
