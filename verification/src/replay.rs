//! Reading the records of a checkpoint again.
use std::ops::Range;
use vstd::prelude::*;

use crate::admission::{
    bodies_of, law_complete_run_is_taken, law_taken_in_order, scan, scan_records,
};
use crate::batch::S2ReadBatch;
use crate::contents::{
    fits, hash_of, law_hash_is_the_digest_of_all, law_size_is_the_sum, view_of, BufferSize,
    Contents, ContentsView, Tally,
};
use crate::digest::xxh3_digest;
use crate::error::S2Error;

verus! {

/// The state of a replay.
pub struct ReplayState {
    pub start: u64,
    pub end: u64,
    /// The sequence number that comes next.
    pub expected: u64,
    /// What the records from `start` on were parsed to.
    pub seen: Seq<Option<ContentsView>>,
}

impl ReplayState {
    /// Exactly the records from `start` up to `expected` have been seen, and none behind `end`.
    pub open spec fn wf(self) -> bool {
        &&& self.start <= self.expected
        &&& self.start <= self.end ==> self.expected <= self.end
        &&& self.start > self.end ==> self.expected == self.start
        &&& self.seen.len() == self.expected - self.start
    }

    /// Whether there is nothing left to read.
    pub open spec fn done(self) -> bool {
        self.expected >= self.end
    }
}

/// What to do with a batch that came while a checkpoint is read again.
#[derive(Debug, PartialEq, Eq)]
pub struct ReplayAdmission {
    /// The bodies of the records to parse, in order.
    pub bodies: Vec<String>,
    /// The error that ends the replay once they are parsed.
    pub failure: Option<S2Error>,
}

/// The outcome of a replay.
#[derive(Debug, PartialEq, Eq)]
pub struct Replayed {
    pub total: BufferSize,
    pub hash: u64,
    /// The sequence number to go on from.
    pub next_seq_num: u64,
}

impl ReplayState {
    /// Whether `replayed` is the outcome of the replay: the size and the hash of all that was
    /// read, and the end of the range.
    pub open spec fn is_outcome(self, replayed: Replayed) -> bool {
        &&& replayed.total.is_total_of(self.seen)
        &&& replayed.hash == hash_of(self.seen)
        &&& replayed.next_seq_num == self.end
    }
}

impl ReplayState {
    /// The state once one more record has been parsed to `contents`.
    pub open spec fn absorbed(self, contents: Option<ContentsView>) -> ReplayState {
        ReplayState {
            expected: (self.expected + 1) as u64,
            seen: self.seen.push(contents),
            ..self
        }
    }
}

/// The error that ends a replay which expects `expected` and gets `records`.
pub open spec fn replay_failure(
    records: Seq<(u64, String)>,
    expected: u64,
    end: u64,
) -> Option<S2Error> {
    let (bodies, gap) = scan(records, expected as int, Some(end));
    match gap {
        Some((expected, received)) => Some(
            S2Error::ReplayGap { expected: expected as u64, received },
        ),
        None => if bodies.len() == 0 {
            Some(S2Error::ReplayStalled { seq_num: expected })
        } else {
            None
        },
    }
}

/// A batch that holds the next records without a gap is no failure, and all of them are taken that
/// the checkpoint still needs.
pub proof fn law_complete_run_is_replayed(records: Seq<(u64, String)>, expected: u64, end: u64)
    requires
        expected < end,
        records.len() > 0,
        forall|i: int| 0 <= i < records.len() ==> (#[trigger] records[i]).0 == expected + i,
    ensures
        replay_failure(records, expected, end) is None,
        scan(records, expected as int, Some(end)).0 == if end - expected < records.len() {
            bodies_of(records).take(end - expected)
        } else {
            bodies_of(records)
        },
{
    law_complete_run_is_taken(records, expected as int, Some(end));
}

/// A checkpoint that is being read again.
pub struct Replay {
    range: Range<u64>,
    expected: u64,
    tally: Tally,
}

impl View for Replay {
    type V = ReplayState;

    closed spec fn view(&self) -> ReplayState {
        ReplayState {
            start: self.range.start,
            end: self.range.end,
            expected: self.expected,
            seen: self.tally@,
        }
    }
}

impl Replay {
    /// Whether the state is one that a replay can reach.
    pub closed spec fn wf(self) -> bool {
        self.tally.wf() && self@.wf()
    }

    /// A replay that can be reached is in a valid state.
    pub proof fn lemma_wf(self)
        requires
            self.wf(),
        ensures
            self@.wf(),
    {
    }

    /// A replay at the start of `range`.
    pub fn new(range: Range<u64>) -> (res: Self)
        ensures
            res.wf(),
            res@.wf(),
            res@ == (ReplayState {
                start: range.start,
                end: range.end,
                expected: range.start,
                seen: Seq::empty(),
            }),
    {
        let expected: u64 = range.start;
        Self { range, expected, tally: Tally::new() }
    }

    /// Whether all records have been read.
    pub fn is_done(&self) -> (res: bool)
        ensures
            res == self@.done(),
    {
        self.expected >= self.range.end
    }

    /// The sequence number that comes next.
    pub fn expected_seq_num(&self) -> (res: u64)
        ensures
            res == self@.expected,
    {
        self.expected
    }

    /// Decides what to do with the next batch, or with the end of the stream (`None`).
    pub fn on_batch(&self, batch: Option<S2ReadBatch>) -> (res: Result<ReplayAdmission, S2Error>)
        requires
            self.wf(),
            !self@.done(),
            batch matches Some(batch) ==> batch.countable(self@.expected),
        ensures
            match batch {
                Some(batch) => {
                    let records = batch.numbered(self@.expected);
                    &&& res matches Ok(admission)
                    &&& admission.bodies@ == scan(
                        records,
                        self@.expected as int,
                        Some(self@.end),
                    ).0
                    &&& admission.failure == replay_failure(records, self@.expected, self@.end)
                    &&& self@.expected + admission.bodies@.len() <= self@.end
                    &&& admission.failure is None ==> admission.bodies@.len() > 0
                },
                None => res == Err::<ReplayAdmission, S2Error>(S2Error::ReplayEnded),
            },
    {
        let batch = match batch {
            Some(batch) => batch,
            None => {
                return Err(S2Error::ReplayEnded);
            },
        };
        let ghost numbered = batch.numbered(self.expected);
        let records = batch.into_records(self.expected);
        proof {
            let _ = law_taken_in_order(numbered, self.expected as int, Some(self.range.end));
        }
        let scanned = scan_records(records, self.expected, Some(self.range.end));
        let failure = match scanned.gap {
            Some((expected, received)) => Some(S2Error::ReplayGap { expected, received }),
            None => if scanned.bodies.len() == 0 {
                Some(S2Error::ReplayStalled { seq_num: self.expected })
            } else {
                None
            },
        };
        Ok(ReplayAdmission { bodies: scanned.bodies, failure })
    }

    /// Whether the totals still can be counted with `contents`.
    pub fn can_absorb(&self, contents: &Option<Contents>) -> (res: bool)
        requires
            self.wf(),
        ensures
            res == fits(self@.seen.push(view_of(*contents))),
    {
        self.tally.can_add(contents)
    }

    /// Takes in what the next record was parsed to.
    pub fn absorb(&mut self, contents: &Option<Contents>)
        requires
            old(self).wf(),
            !old(self)@.done(),
            fits(old(self)@.seen.push(view_of(*contents))),
        ensures
            final(self).wf(),
            final(self)@.wf(),
            final(self)@ == (ReplayState {
                expected: (old(self)@.expected + 1) as u64,
                seen: old(self)@.seen.push(view_of(*contents)),
                ..old(self)@
            }),
            final(self)@ == old(self)@.absorbed(view_of(*contents)),
    {
        self.tally.add(contents);
        self.expected = self.expected + 1;
    }

    /// The size and the hash of all that was read, and where to go on: at the end of the range.
    pub fn finish(self) -> (res: Replayed)
        requires
            self.wf(),
            self@.done(),
        ensures
            self@.is_outcome(res),
    {
        let next_seq_num: u64 = if self.range.start >= self.range.end {
            self.range.end
        } else {
            self.expected
        };
        Replayed { total: self.tally.total(), hash: self.tally.hash(), next_seq_num }
    }
}

/// A replay has come as far as it has seen records, from the start of its range and not behind its
/// end. It is done exactly when it has come to the end. A range that ends before it starts is done
/// at once.
pub proof fn law_replay_progress(replay: ReplayState)
    ensures
        replay.wf() <==> replay.expected == replay.start + replay.seen.len() && (replay.seen.len()
            == 0 || replay.expected <= replay.end),
        replay.done() <==> replay.end <= replay.expected,
        replay.wf() && replay.done() && replay.start <= replay.end ==> replay.seen.len()
            == replay.end - replay.start,
        replay.wf() && replay.done() && replay.end <= replay.start ==> replay.seen.len() == 0,
{
}

/// A record that a replay takes in is seen behind those before it, and the next number is expected.
/// The range stays.
pub proof fn law_record_is_absorbed(replay: ReplayState, contents: Option<Contents>)
    requires
        replay.wf(),
        !replay.done(),
    ensures
        ({
            let after = replay.absorbed(view_of(contents));
            &&& after.wf()
            &&& after.start == replay.start
            &&& after.end == replay.end
            &&& after.expected == replay.expected + 1
            &&& after.seen.len() == replay.seen.len() + 1
            &&& after.seen.drop_last() == replay.seen
            &&& contents matches Some(contents) ==> (after.seen.last() matches Some(view)
                && view.records == contents.size.records && view.bytes == contents.size.bytes
                && view.hash_input == contents.hash_input@)
            &&& contents is None ==> after.seen.last() is None
        }),
{
    assert(replay.absorbed(view_of(contents)).seen.drop_last() =~= replay.seen);
}

/// The outcome of a replay is the sum of the sizes of all that was read, the digest of all bytes of
/// it, and the end of the range.
pub proof fn law_outcome_of_replay(
    replay: ReplayState,
    parsed: Seq<Option<Contents>>,
    replayed: Replayed,
)
    requires
        replay.seen == parsed.map_values(|contents: Option<Contents>| view_of(contents)),
        replay.is_outcome(replayed),
    ensures
        replayed.next_seq_num == replay.end,
        replayed.hash == xxh3_digest(
            parsed.map_values(
                |contents: Option<Contents>|
                    match contents {
                        Some(contents) => contents.hash_input@,
                        None => Seq::empty(),
                    },
            ).flatten(),
        ),
        replayed.total.records == parsed.fold_left(
            0int,
            |sum: int, contents: Option<Contents>|
                sum + match contents {
                    Some(contents) => contents.size.records as int,
                    None => 0,
                },
        ),
        replayed.total.bytes == parsed.fold_left(
            0int,
            |sum: int, contents: Option<Contents>|
                sum + match contents {
                    Some(contents) => contents.size.bytes as int,
                    None => 0,
                },
        ),
{
    law_hash_is_the_digest_of_all(parsed);
    law_size_is_the_sum(parsed, replayed.total);
}

/// A batch ends a replay with an error exactly where it leaves out a record that the replay needs,
/// or holds none. The error names the number that was missing and the one that came instead, or the
/// number at which the replay stands.
pub proof fn law_replay_failures(records: Seq<(u64, String)>, expected: u64, end: u64)
    requires
        expected < end,
    ensures
        ({
            let (bodies, gap) = scan(records, expected as int, Some(end));
            match replay_failure(records, expected, end) {
                None => gap is None && bodies.len() > 0,
                Some(S2Error::ReplayGap { expected: missing, received }) => {
                    &&& gap == Some((missing as int, received))
                    &&& missing == expected + bodies.len()
                },
                Some(S2Error::ReplayStalled { seq_num }) => {
                    &&& gap is None
                    &&& bodies.len() == 0
                    &&& seq_num == expected
                },
                Some(_) => false,
            }
        }),
{
    let _ = law_taken_in_order(records, expected as int, Some(end));
}

} // verus!
