//! Which records of a batch are taken: each sequence number once, in order, without a gap.
use vstd::prelude::*;

verus! {

/// What a reader that expects the sequence number `expected` takes from numbered records: the
/// bodies taken, and the numbers expected and found where one is missing.
///
/// A record with a smaller number is skipped. A larger number ends the scan as a gap. The record
/// with the expected number is taken, unless `end` is reached: that ends the scan.
pub open spec fn scan(records: Seq<(u64, String)>, expected: int, end: Option<u64>) -> (
    Seq<String>,
    Option<(int, u64)>,
)
    decreases records.len(),
{
    if records.len() == 0 {
        (Seq::empty(), None)
    } else {
        let (seq_num, body) = records[0];
        let rest = records.skip(1);
        if seq_num < expected {
            scan(rest, expected, end)
        } else if seq_num > expected {
            (Seq::empty(), Some((expected, seq_num)))
        } else if end matches Some(end) && expected >= end {
            (Seq::empty(), None)
        } else {
            let tail = scan(rest, expected + 1, end);
            (seq![body] + tail.0, tail.1)
        }
    }
}

/// The outcome of a scan.
#[derive(Debug, PartialEq, Eq)]
pub struct Scanned {
    /// The bodies taken, in order.
    pub bodies: Vec<String>,
    /// The number expected and the number found, where one is missing.
    pub gap: Option<(u64, u64)>,
}

impl Scanned {
    /// The outcome as `scan` gives it.
    pub open spec fn outcome(self) -> (Seq<String>, Option<(int, u64)>) {
        (
            self.bodies@,
            match self.gap {
                Some((expected, received)) => Some((expected as int, received)),
                None => None,
            },
        )
    }
}

/// Takes from `records` what a reader takes that expects the sequence number `expected`.
pub fn scan_records(records: Vec<(u64, String)>, expected: u64, end: Option<u64>) -> (res: Scanned)
    ensures
        res.outcome() == scan(records@, expected as int, end),
{
    let mut bodies: Vec<String> = Vec::new();
    let mut next: u128 = expected as u128;
    let ghost all = records@;
    assert(all.len() == records.len());
    assert(all.skip(0) =~= all);
    for record in it: records
        invariant
            it.seq() == all,
            next == expected + bodies@.len(),
            bodies@.len() <= it.index() <= all.len(),
            all.len() <= usize::MAX,
            scan(all, expected as int, end) == (
                bodies@ + scan(all.skip(it.index()), next as int, end).0,
                scan(all.skip(it.index()), next as int, end).1,
            ),
    {
        assert(all.skip(it.index()).skip(1) =~= all.skip(it.index() + 1));
        let (seq_num, body) = record;
        if seq_num as u128 > next {
            return Scanned { bodies, gap: Some((next as u64, seq_num)) };
        }
        if seq_num as u128 == next {
            if let Some(end) = end {
                if seq_num >= end {
                    return Scanned { bodies, gap: None };
                }
            }
            bodies.push(body);
            next = next + 1;
        }
    }
    Scanned { bodies, gap: None }
}

/// The bodies of `records`.
pub open spec fn bodies_of(records: Seq<(u64, String)>) -> Seq<String> {
    records.map_values(|record: (u64, String)| record.1)
}

/// Whether the records of `records` at the places `at`, which ascend, carry the numbers from
/// `expected` on, without a gap, and the bodies `taken`.
pub open spec fn consecutive(
    records: Seq<(u64, String)>,
    at: Seq<int>,
    expected: int,
    taken: Seq<String>,
) -> bool {
    &&& at.len() == taken.len()
    &&& forall|k: int| 0 <= k < at.len() ==> 0 <= #[trigger] at[k] < records.len()
    &&& forall|k: int, l: int| 0 <= k < l < at.len() ==> #[trigger] at[k] < #[trigger] at[l]
    &&& forall|k: int|
        0 <= k < at.len() ==> records[#[trigger] at[k]] == ((expected + k) as u64, taken[k])
            && expected + k <= u64::MAX
}

/// What is taken are records of the batch, in order, that carry the numbers from `expected` on,
/// each once. A gap is found at the number behind them. Nothing at or behind `end` is taken.
pub proof fn law_taken_in_order(
    records: Seq<(u64, String)>,
    expected: int,
    end: Option<u64>,
) -> (at: Seq<int>)
    requires
        0 <= expected,
    ensures
        consecutive(records, at, expected, scan(records, expected, end).0),
        scan(records, expected, end).1 matches Some(gap) ==> {
            &&& gap.0 == expected + scan(records, expected, end).0.len()
            &&& gap.0 < gap.1
        },
        end matches Some(end) ==> expected <= end ==> expected + scan(
            records,
            expected,
            Some(end),
        ).0.len() <= end,
    decreases records.len(),
{
    if records.len() == 0 {
        Seq::empty()
    } else {
        let (seq_num, body) = records[0];
        let rest = records.skip(1);
        if seq_num < expected {
            let inner = law_taken_in_order(rest, expected, end);
            Seq::new(inner.len(), |k: int| inner[k] + 1)
        } else if seq_num > expected {
            Seq::empty()
        } else if end matches Some(end) && expected >= end {
            Seq::empty()
        } else {
            let inner = law_taken_in_order(rest, expected + 1, end);
            let at = Seq::new(
                inner.len() + 1,
                |k: int|
                    if k == 0 {
                        0
                    } else {
                        inner[k - 1] + 1
                    },
            );
            let taken = scan(records, expected, end).0;
            let inner_taken = scan(rest, expected + 1, end).0;
            assert forall|k: int| 0 <= k < at.len() implies records[#[trigger] at[k]] == (
                (expected + k) as u64,
                taken[k],
            ) && expected + k <= u64::MAX by {
                if k > 0 {
                    assert(rest[inner[k - 1]] == ((expected + 1 + (k - 1)) as u64, inner_taken[k
                        - 1]));
                }
            }
            at
        }
    }
}

/// Without a gap and without an end, every record of the batch is taken or was taken before.
pub proof fn law_nothing_is_left(records: Seq<(u64, String)>, expected: int)
    requires
        scan(records, expected, None).1 is None,
    ensures
        forall|i: int|
            0 <= i < records.len() ==> (#[trigger] records[i]).0 < expected + scan(
                records,
                expected,
                None,
            ).0.len(),
    decreases records.len(),
{
    if records.len() > 0 {
        let rest = records.skip(1);
        let next = if records[0].0 < expected {
            expected
        } else {
            expected + 1
        };
        law_nothing_is_left(rest, next);
        assert forall|i: int| 0 <= i < records.len() implies (#[trigger] records[i]).0 < expected
            + scan(records, expected, None).0.len() by {
            if i > 0 {
                assert(rest[i - 1] == records[i]);
            }
        }
    }
}

/// Records with numbers below `expected` are skipped.
pub proof fn law_old_records_are_skipped(
    records: Seq<(u64, String)>,
    expected: int,
    end: Option<u64>,
)
    requires
        forall|i: int| 0 <= i < records.len() ==> (#[trigger] records[i]).0 < expected,
    ensures
        scan(records, expected, end) == (Seq::<String>::empty(), None::<(int, u64)>),
    decreases records.len(),
{
    if records.len() > 0 {
        let rest = records.skip(1);
        law_old_records_are_skipped(rest, expected, end);
    }
}

/// A batch that is delivered again adds nothing.
pub proof fn law_redelivery_adds_nothing(records: Seq<(u64, String)>, expected: int)
    requires
        scan(records, expected, None).1 is None,
    ensures
        scan(records, expected + scan(records, expected, None).0.len(), None) == (
            Seq::<String>::empty(),
            None::<(int, u64)>,
        ),
{
    law_nothing_is_left(records, expected);
    law_old_records_are_skipped(records, expected + scan(records, expected, None).0.len(), None);
}

/// Records numbered from `expected` on, without a gap, are all taken, up to `end`.
pub proof fn law_complete_run_is_taken(
    records: Seq<(u64, String)>,
    expected: int,
    end: Option<u64>,
)
    requires
        forall|i: int| 0 <= i < records.len() ==> (#[trigger] records[i]).0 == expected + i,
        end matches Some(end) ==> expected <= end,
    ensures
        scan(records, expected, end) == (
            match end {
                Some(end) if end - expected < records.len() => bodies_of(records).take(
                    end - expected,
                ),
                _ => bodies_of(records),
            },
            None::<(int, u64)>,
        ),
    decreases records.len(),
{
    let bodies = bodies_of(records);
    if records.len() > 0 {
        let rest = records.skip(1);
        if end is None || expected < end->0 {
            law_complete_run_is_taken(rest, expected + 1, end);
        }
        if let Some(end) = end {
            if expected < end && end - expected < records.len() {
                assert(seq![records[0].1] + bodies_of(rest).take(end - expected - 1)
                    =~= bodies.take(end - expected));
            }
        }
    }
}

/// A reader that stops at `end` takes what one takes that does not stop, up to `end`.
pub proof fn law_end_only_cuts_off(records: Seq<(u64, String)>, expected: int, end: u64)
    requires
        expected <= end,
    ensures
        ({
            let all = scan(records, expected, None).0;
            scan(records, expected, Some(end)).0 == if all.len() <= end - expected {
                all
            } else {
                all.take(end - expected)
            }
        }),
    decreases records.len(),
{
    if records.len() > 0 {
        let seq_num = records[0].0;
        let rest = records.skip(1);
        if seq_num < expected {
            law_end_only_cuts_off(rest, expected, end);
        } else if seq_num == expected && expected < end {
            law_end_only_cuts_off(rest, expected + 1, end);
        }
    }
}

/// How numbered records are cut into batches does not matter.
pub proof fn law_batching(first: Seq<(u64, String)>, second: Seq<(u64, String)>, expected: int)
    ensures
        scan(first + second, expected, None) == if scan(first, expected, None).1 is Some {
            scan(first, expected, None)
        } else {
            let before = scan(first, expected, None).0;
            let after = scan(second, expected + before.len(), None);
            (before + after.0, after.1)
        },
    decreases first.len(),
{
    let all = first + second;
    if first.len() == 0 {
        assert(Seq::<String>::empty() + scan(second, expected, None).0 =~= scan(
            second,
            expected,
            None,
        ).0);
    } else {
        let rest = first.skip(1);
        assert(all.skip(1) =~= rest + second);
        if first[0].0 < expected {
            law_batching(rest, second, expected);
        } else if first[0].0 == expected {
            law_batching(rest, second, expected + 1);
        }
    }
}

/// The records of `batches`, one batch after the other.
pub open spec fn all_records(batches: Seq<Seq<(u64, String)>>) -> Seq<(u64, String)>
    decreases batches.len(),
{
    if batches.len() == 0 {
        Seq::empty()
    } else {
        batches[0] + all_records(batches.skip(1))
    }
}

/// What a reader takes that gets `batches`, one after the other, until `end` or a gap is reached.
pub open spec fn scan_batches(
    batches: Seq<Seq<(u64, String)>>,
    expected: int,
    end: Option<u64>,
) -> (Seq<String>, Option<(int, u64)>)
    decreases batches.len(),
{
    if batches.len() == 0 || (end matches Some(end) && expected >= end) {
        (Seq::empty(), None)
    } else {
        let first = scan(batches[0], expected, end);
        if first.1 is Some {
            first
        } else {
            let rest = scan_batches(batches.skip(1), expected + first.0.len(), end);
            (first.0 + rest.0, rest.1)
        }
    }
}

/// Two batches up to `end` give the bodies that one batch of both gives.
proof fn lemma_batching_up_to_end(
    first: Seq<(u64, String)>,
    second: Seq<(u64, String)>,
    expected: int,
    end: u64,
)
    requires
        0 <= expected <= end,
    ensures
        scan(first + second, expected, Some(end)).0 == if scan(
            first,
            expected,
            Some(end),
        ).1 is Some {
            scan(first, expected, Some(end)).0
        } else {
            let before = scan(first, expected, Some(end)).0;
            before + scan(second, expected + before.len(), Some(end)).0
        },
    decreases first.len(),
{
    let all = first + second;
    if first.len() == 0 {
        assert(all =~= second);
    } else {
        let rest = first.skip(1);
        assert(all.skip(1) =~= rest + second);
        if first[0].0 < expected {
            lemma_batching_up_to_end(rest, second, expected, end);
        } else if first[0].0 == expected {
            if expected >= end {
                let _ = law_taken_in_order(second, expected, Some(end));
            } else {
                lemma_batching_up_to_end(rest, second, expected + 1, end);
            }
        }
    }
}

/// How numbered records are cut into batches does not matter for what is taken.
pub proof fn law_batches_as_one(
    batches: Seq<Seq<(u64, String)>>,
    expected: int,
    end: Option<u64>,
)
    requires
        0 <= expected,
        end matches Some(end) ==> expected <= end,
    ensures
        scan_batches(batches, expected, end).0 == scan(all_records(batches), expected, end).0,
        end is None ==> scan_batches(batches, expected, end) == scan(
            all_records(batches),
            expected,
            end,
        ),
    decreases batches.len(),
{
    let all = all_records(batches);
    let _ = law_taken_in_order(all, expected, end);
    if batches.len() > 0 && (end is None || expected < end->0) {
        let first = batches[0];
        let rest = batches.skip(1);
        let _ = law_taken_in_order(first, expected, end);
        match end {
            Some(end) => lemma_batching_up_to_end(first, all_records(rest), expected, end),
            None => law_batching(first, all_records(rest), expected),
        }
        if scan(first, expected, end).1 is None {
            law_batches_as_one(rest, expected + scan(first, expected, end).0.len(), end);
        }
    }
}

/// Reading records again up to `end` takes what was taken the first time, up to `end`, however
/// the records are cut into batches either time.
pub proof fn law_reading_again_takes_the_same(
    batches: Seq<Seq<(u64, String)>>,
    again: Seq<Seq<(u64, String)>>,
    expected: int,
    end: u64,
)
    requires
        0 <= expected <= end,
        all_records(batches) == all_records(again),
    ensures
        ({
            let taken = scan_batches(batches, expected, None).0;
            scan_batches(again, expected, Some(end)).0 == if taken.len() <= end - expected {
                taken
            } else {
                taken.take(end - expected)
            }
        }),
{
    law_batches_as_one(batches, expected, None);
    law_batches_as_one(again, expected, Some(end));
    law_end_only_cuts_off(all_records(batches), expected, end);
}

/// A reader goes through the records of a batch one by one. `count[i]` is how many it has taken
/// before the record at `i`. A record with a smaller number than the one that it expects by then is
/// passed over. The record with that number is taken with its body, unless the number is at or
/// behind `end`, where the reader stops. At a larger number it stops too, and the gap names the
/// number that was expected and the one that came.
pub proof fn law_record_by_record(
    records: Seq<(u64, String)>,
    expected: int,
    end: Option<u64>,
) -> (count: Seq<int>)
    ensures
        ({
            let (taken, gap) = scan(records, expected, end);
            let stop = count.len() - 1;
            &&& 0 <= stop <= records.len()
            &&& count[0] == 0
            &&& count[stop] == taken.len()
            &&& forall|i: int|
                0 <= i < stop ==> {
                    let (seq_num, body) = #[trigger] records[i];
                    ||| seq_num < expected + count[i] && count[i + 1] == count[i]
                    ||| {
                        &&& seq_num == expected + count[i]
                        &&& end matches Some(end) ==> seq_num < end
                        &&& count[i + 1] == count[i] + 1
                        &&& 0 <= count[i] < taken.len()
                        &&& taken[count[i]] == body
                    }
                }
            &&& match gap {
                Some((missing, received)) => {
                    &&& stop < records.len()
                    &&& missing == expected + taken.len()
                    &&& received == records[stop].0
                    &&& missing < received
                },
                None => stop == records.len() || {
                    &&& records[stop].0 == expected + taken.len()
                    &&& end matches Some(end) && end <= records[stop].0
                },
            }
        }),
    decreases records.len(),
{
    if records.len() == 0 {
        seq![0int]
    } else {
        let (seq_num, body) = records[0];
        let rest = records.skip(1);
        if seq_num > expected || (seq_num == expected && end is Some && expected >= end->0) {
            seq![0int]
        } else {
            let step = if seq_num < expected {
                0int
            } else {
                1int
            };
            let inner = law_record_by_record(rest, expected + step, end);
            let count = Seq::new(
                inner.len() + 1,
                |i: int|
                    if i == 0 {
                        0
                    } else {
                        inner[i - 1] + step
                    },
            );
            let (taken, gap) = scan(records, expected, end);
            let stop = count.len() - 1;
            assert forall|i: int| 0 <= i < stop implies {
                let (seq_num, body) = #[trigger] records[i];
                ||| seq_num < expected + count[i] && count[i + 1] == count[i]
                ||| {
                    &&& seq_num == expected + count[i]
                    &&& end matches Some(end) ==> seq_num < end
                    &&& count[i + 1] == count[i] + 1
                    &&& 0 <= count[i] < taken.len()
                    &&& taken[count[i]] == body
                }
            } by {
                if i > 0 {
                    assert(rest[i - 1] == records[i]);
                }
            }
            count
        }
    }
}

/// The outcome of a scan is what it holds.
pub proof fn law_scanned(scanned: Scanned)
    ensures
        scanned.outcome().0 == scanned.bodies@,
        scanned.gap is None <==> scanned.outcome().1 is None,
        scanned.gap matches Some((expected, received)) ==> scanned.outcome().1 == Some(
            (expected as int, received),
        ),
{
}

} // verus!
