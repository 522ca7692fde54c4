//! A reader that has been opened and is not at work yet.
use std::sync::Arc;
use vstd::prelude::*;

use crate::config::{share, S2InputConfig};
use crate::error::S2Error;
use crate::metadata::Metadata;
use crate::replay::{Replay, ReplayState, Replayed};
use crate::stream::{S2EventStream, StreamState};
use crate::worker::{Worker, WorkerState};

verus! {

/// The state of a reader that is not at work yet.
pub struct ReaderState {
    pub config: S2InputConfig,
    /// The sequence number to read on from.
    pub next_seq_num: u64,
    /// The checkpoints that have been read again, in order.
    pub replayed: Seq<Metadata>,
}

impl ReaderState {
    /// The state once the replay of `metadata` has ended in `outcome`. After an error there is
    /// none: the reader ends with the error.
    pub open spec fn after_replay(
        self,
        metadata: Metadata,
        outcome: Result<Replayed, S2Error>,
    ) -> Result<ReaderState, S2Error> {
        match outcome {
            Ok(replayed) => Ok(
                ReaderState {
                    next_seq_num: replayed.next_seq_num,
                    replayed: self.replayed.push(metadata),
                    ..self
                },
            ),
            Err(error) => Err(error),
        }
    }

    /// The state of the reader when it goes to work.
    pub open spec fn at_work<B>(self) -> WorkerState<B> {
        WorkerState {
            config: self.config,
            next_seq_num: self.next_seq_num,
            queue: Seq::empty(),
            extending: false,
        }
    }

    /// An event stream of the reader that is not open yet.
    pub open spec fn stream(self) -> StreamState {
        StreamState { config: self.config, buffered: Seq::empty(), connected: false }
    }
}

/// The state of a replay of `metadata` that has read nothing.
pub open spec fn replay_start(metadata: Metadata) -> ReplayState {
    ReplayState {
        start: metadata.seq_numbers.start,
        end: metadata.seq_numbers.end,
        expected: metadata.seq_numbers.start,
        seen: Seq::empty(),
    }
}

/// A reader that is not at work yet: it may have checkpoints to read again first.
pub struct S2InputReader {
    config: Arc<S2InputConfig>,
    next_seq_num: u64,
    replayed: Ghost<Seq<Metadata>>,
}

impl View for S2InputReader {
    type V = ReaderState;

    closed spec fn view(&self) -> ReaderState {
        ReaderState {
            config: *self.config,
            next_seq_num: self.next_seq_num,
            replayed: self.replayed@,
        }
    }
}

/// A reader whose checkpoint is being read again. It is given back when that has succeeded, and
/// can do nothing before.
pub struct ReplayingReader {
    reader: S2InputReader,
    metadata: Ghost<Metadata>,
}

/// The state of a reader whose checkpoint is being read again.
pub struct ReplayingState {
    /// The state of the reader before.
    pub reader: ReaderState,
    /// The checkpoint.
    pub metadata: Metadata,
}

impl View for ReplayingReader {
    type V = ReplayingState;

    closed spec fn view(&self) -> ReplayingState {
        ReplayingState { reader: self.reader@, metadata: self.metadata@ }
    }
}

/// What a reader does about the next command while it is not at work yet.
pub enum Start<B> {
    /// It reads a checkpoint again.
    Replay { replay: Replay, reader: ReplayingReader },
    /// It goes to work, and then obeys the command.
    Work(Worker<B>),
}

impl S2InputReader {
    /// A reader that goes on where `resume_info` ends.
    pub fn new(config: Arc<S2InputConfig>, resume_info: Metadata) -> (res: Self)
        ensures
            res@ == (ReaderState {
                config: *config,
                next_seq_num: resume_info.seq_numbers.end,
                replayed: Seq::empty(),
            }),
    {
        Self {
            config,
            next_seq_num: resume_info.seq_numbers.end,
            replayed: Ghost(Seq::empty()),
        }
    }

    /// An event stream that is not open yet.
    pub fn event_stream(&self) -> (res: S2EventStream)
        ensures
            res@ == self@.stream(),
    {
        S2EventStream::new(share(&self.config))
    }

    /// Starts to read the records of a checkpoint again.
    pub fn replay_range(&self, metadata: Metadata) -> (res: Replay)
        ensures
            res.wf(),
            res@.wf(),
            res@ == replay_start(metadata),
    {
        Replay::new(metadata.seq_numbers)
    }

    /// The reader at work, once there is nothing left to replay. It waits to be told to read.
    pub fn into_worker<B>(self) -> (res: Worker<B>)
        ensures
            res@ == self@.at_work::<B>(),
            res@.wf(),
    {
        Worker::new(self.config, self.next_seq_num)
    }

    /// Decides about the next command, which asks for the replay of a checkpoint or is another one
    /// (`None`).
    pub fn on_start<B>(self, replay: Option<Metadata>) -> (res: Start<B>)
        ensures
            match replay {
                Some(metadata) => {
                    &&& res matches Start::Replay { replay, reader }
                    &&& replay.wf()
                    &&& replay@.wf()
                    &&& replay@ == replay_start(metadata)
                    &&& reader@ == (ReplayingState { reader: self@, metadata })
                },
                None => {
                    &&& res matches Start::Work(worker)
                    &&& worker@ == self@.at_work::<B>()
                    &&& worker@.wf()
                },
            },
    {
        match replay {
            Some(metadata) => {
                let ghost checkpoint = metadata;
                let replay = self.replay_range(metadata);
                let reader = ReplayingReader { reader: self, metadata: Ghost(checkpoint) };
                Start::Replay { replay, reader }
            },
            None => Start::Work(self.into_worker()),
        }
    }
}

impl ReplayingReader {
    /// An event stream that is not open yet.
    pub fn event_stream(&self) -> (res: S2EventStream)
        ensures
            res@ == self@.reader.stream(),
    {
        self.reader.event_stream()
    }

    /// Takes in the outcome of the replay: the reader goes on behind the checkpoint, or ends with
    /// the error.
    pub fn replayed(self, outcome: Result<Replayed, S2Error>) -> (res: Result<
        S2InputReader,
        S2Error,
    >)
        ensures
            match self@.reader.after_replay(self@.metadata, outcome) {
                Ok(state) => res matches Ok(reader) && reader@ == state,
                Err(error) => res == Err::<S2InputReader, S2Error>(error),
            },
    {
        match outcome {
            Ok(replayed) => Ok(
                S2InputReader {
                    config: self.reader.config,
                    next_seq_num: replayed.next_seq_num,
                    replayed: Ghost(self.reader.replayed@.push(self.metadata@)),
                },
            ),
            Err(error) => Err(error),
        }
    }
}

/// A replay that succeeds moves the reader to where it ended and is remembered; one that fails
/// leaves no reader. Neither changes the configuration.
pub proof fn law_after_replay(
    state: ReaderState,
    metadata: Metadata,
    outcome: Result<Replayed, S2Error>,
)
    ensures
        outcome matches Ok(replayed) ==> (state.after_replay(metadata, outcome) matches Ok(after)
            && after.config == state.config && after.next_seq_num == replayed.next_seq_num
            && after.replayed == state.replayed.push(metadata)),
        outcome matches Err(error) ==> state.after_replay(metadata, outcome) == Err::<
            ReaderState,
            S2Error,
        >(error),
{
}

/// A reader goes to work where it stands, with nothing queued and not reading yet. Its stream holds
/// nothing and is not open, and works with the configuration of the reader, as the reader does.
pub proof fn law_reader_goes_to_work<B>(state: ReaderState)
    ensures
        state.at_work::<B>().config == state.config,
        state.at_work::<B>().next_seq_num == state.next_seq_num,
        state.at_work::<B>().queue.len() == 0,
        !state.at_work::<B>().extending,
        state.stream().config == state.config,
        state.stream().buffered.len() == 0,
        !state.stream().connected,
{
}

/// A replay starts at the start of its range, with nothing seen, and ends at its end.
pub proof fn law_replay_starts_at_its_range(metadata: Metadata)
    ensures
        replay_start(metadata).start == metadata.seq_numbers.start,
        replay_start(metadata).expected == metadata.seq_numbers.start,
        replay_start(metadata).end == metadata.seq_numbers.end,
        replay_start(metadata).seen.len() == 0,
{
}

} // verus!
