//! What is known of parsed records: how large they are, and what they add to a hash.
use vstd::prelude::*;

use crate::digest::{xxh3, xxh3_digest};

verus! {

/// The size of parsed data.
#[derive(Debug, Clone, Copy, PartialEq, Eq)]
pub struct BufferSize {
    pub records: usize,
    pub bytes: usize,
}

/// What is known of the data that one record was parsed to.
#[derive(Debug, PartialEq, Eq)]
pub struct Contents {
    pub size: BufferSize,
    /// The bytes that the data feeds to a hasher.
    pub hash_input: Vec<u8>,
}

/// The mathematical form of `Contents`.
pub struct ContentsView {
    pub records: nat,
    pub bytes: nat,
    pub hash_input: Seq<u8>,
}

impl View for Contents {
    type V = ContentsView;

    open spec fn view(&self) -> ContentsView {
        ContentsView {
            records: self.size.records as nat,
            bytes: self.size.bytes as nat,
            hash_input: self.hash_input@,
        }
    }
}

/// How many records `parsed` holds. A record that was parsed to nothing (`None`) adds none.
pub open spec fn total_records(parsed: Seq<Option<ContentsView>>) -> nat
    decreases parsed.len(),
{
    if parsed.len() == 0 {
        0
    } else {
        total_records(parsed.drop_last()) + match parsed.last() {
            Some(contents) => contents.records,
            None => 0,
        }
    }
}

/// How many bytes `parsed` holds.
pub open spec fn total_bytes(parsed: Seq<Option<ContentsView>>) -> nat
    decreases parsed.len(),
{
    if parsed.len() == 0 {
        0
    } else {
        total_bytes(parsed.drop_last()) + match parsed.last() {
            Some(contents) => contents.bytes,
            None => 0,
        }
    }
}

/// The bytes that `parsed` feeds to a hasher, in order.
pub open spec fn total_hash_input(parsed: Seq<Option<ContentsView>>) -> Seq<u8>
    decreases parsed.len(),
{
    if parsed.len() == 0 {
        Seq::empty()
    } else {
        total_hash_input(parsed.drop_last()) + match parsed.last() {
            Some(contents) => contents.hash_input,
            None => Seq::empty(),
        }
    }
}

/// The hash of `parsed`.
pub open spec fn hash_of(parsed: Seq<Option<ContentsView>>) -> u64 {
    xxh3_digest(total_hash_input(parsed))
}

/// Whether the totals of `parsed` can be counted.
pub open spec fn fits(parsed: Seq<Option<ContentsView>>) -> bool {
    total_records(parsed) <= usize::MAX && total_bytes(parsed) <= usize::MAX
}

impl BufferSize {
    /// Whether this is the size of `parsed`.
    pub open spec fn is_total_of(self, parsed: Seq<Option<ContentsView>>) -> bool {
        self.records == total_records(parsed) && self.bytes == total_bytes(parsed)
    }
}

/// `contents` as its mathematical form.
pub open spec fn view_of(contents: Option<Contents>) -> Option<ContentsView> {
    match contents {
        Some(contents) => Some(contents@),
        None => None,
    }
}

/// If the totals of `parsed` can be counted, so can those of its first `n`.
pub proof fn lemma_prefix_fits(parsed: Seq<Option<ContentsView>>, n: int)
    requires
        fits(parsed),
        0 <= n <= parsed.len(),
    ensures
        fits(parsed.take(n)),
    decreases parsed.len(),
{
    if n == parsed.len() {
        assert(parsed.take(n) =~= parsed);
    } else {
        lemma_prefix_fits(parsed.drop_last(), n);
        assert(parsed.drop_last().take(n) =~= parsed.take(n));
    }
}

/// The running size and hash of parsed records.
pub struct Tally {
    total: BufferSize,
    hash_input: Vec<u8>,
    seen: Ghost<Seq<Option<ContentsView>>>,
}

impl View for Tally {
    type V = Seq<Option<ContentsView>>;

    closed spec fn view(&self) -> Seq<Option<ContentsView>> {
        self.seen@
    }
}

impl Tally {
    /// Whether the totals are those of what has been counted.
    pub closed spec fn wf(self) -> bool {
        &&& self.total.is_total_of(self.seen@)
        &&& self.hash_input@ == total_hash_input(self.seen@)
    }

    /// Nothing counted yet.
    pub fn new() -> (res: Self)
        ensures
            res.wf(),
            res@ == Seq::<Option<ContentsView>>::empty(),
    {
        Self {
            total: BufferSize { records: 0, bytes: 0 },
            hash_input: Vec::new(),
            seen: Ghost(Seq::empty()),
        }
    }

    /// Whether `contents` can be counted too.
    pub fn can_add(&self, contents: &Option<Contents>) -> (res: bool)
        requires
            self.wf(),
        ensures
            res == fits(self@.push(view_of(*contents))),
    {
        assert(self@.push(view_of(*contents)).drop_last() =~= self@);
        match contents {
            Some(contents) => contents.size.records <= usize::MAX - self.total.records
                && contents.size.bytes <= usize::MAX - self.total.bytes,
            None => true,
        }
    }

    /// Counts `contents`.
    pub fn add(&mut self, contents: &Option<Contents>)
        requires
            old(self).wf(),
            fits(old(self)@.push(view_of(*contents))),
        ensures
            final(self).wf(),
            final(self)@ == old(self)@.push(view_of(*contents)),
    {
        assert(self@.push(view_of(*contents)).drop_last() =~= self@);
        if let Some(contents) = contents {
            self.total = BufferSize {
                records: self.total.records + contents.size.records,
                bytes: self.total.bytes + contents.size.bytes,
            };
            let ghost before = self.hash_input@;
            self.hash_input.extend_from_slice(&contents.hash_input);
            assert(self.hash_input@ =~= before + contents.hash_input@);
        }
        self.seen = Ghost(self.seen@.push(view_of(*contents)));
    }

    /// The size of what has been counted.
    pub fn total(&self) -> (res: BufferSize)
        requires
            self.wf(),
        ensures
            res.is_total_of(self@),
    {
        self.total
    }

    /// The hash of what has been counted.
    pub fn hash(&self) -> (res: u64)
        requires
            self.wf(),
        ensures
            res == hash_of(self@),
    {
        xxh3(&self.hash_input)
    }
}

/// What is known of data is its size and the bytes that it feeds to a hasher, all of them.
pub proof fn law_contents_are_kept(contents: Contents)
    ensures
        view_of(Some(contents)) == Some(
            ContentsView {
                records: contents.size.records as nat,
                bytes: contents.size.bytes as nat,
                hash_input: contents.hash_input@,
            },
        ),
        view_of(None) is None,
{
}

/// Every record that was parsed to data adds all of its size and all of its bytes, whatever its
/// size. One that was parsed to nothing adds nothing.
pub proof fn law_every_record_counts(parsed: Seq<Option<ContentsView>>, contents: Contents)
    ensures
        ({
            let more = parsed.push(view_of(Some(contents)));
            &&& total_records(more) == total_records(parsed) + contents.size.records
            &&& total_bytes(more) == total_bytes(parsed) + contents.size.bytes
            &&& total_hash_input(more) == total_hash_input(parsed) + contents.hash_input@
        }),
        ({
            let same = parsed.push(view_of(None));
            &&& total_records(same) == total_records(parsed)
            &&& total_bytes(same) == total_bytes(parsed)
            &&& total_hash_input(same) == total_hash_input(parsed)
        }),
{
    assert(parsed.push(view_of(Some(contents))).drop_last() =~= parsed);
    assert(parsed.push(view_of(None)).drop_last() =~= parsed);
    assert(total_hash_input(parsed) + Seq::<u8>::empty() =~= total_hash_input(parsed));
}

/// The size of parsed records is the sum of their sizes. It can be counted exactly where neither
/// sum is too large.
pub proof fn law_size_is_the_sum(parsed: Seq<Option<Contents>>, size: BufferSize)
    ensures
        ({
            let views = parsed.map_values(|contents: Option<Contents>| view_of(contents));
            let records = parsed.fold_left(
                0int,
                |sum: int, contents: Option<Contents>|
                    sum + match contents {
                        Some(contents) => contents.size.records as int,
                        None => 0,
                    },
            );
            let bytes = parsed.fold_left(
                0int,
                |sum: int, contents: Option<Contents>|
                    sum + match contents {
                        Some(contents) => contents.size.bytes as int,
                        None => 0,
                    },
            );
            &&& size.is_total_of(views) <==> size.records == records && size.bytes == bytes
            &&& fits(views) <==> records <= usize::MAX && bytes <= usize::MAX
            &&& total_records(views) == records
            &&& total_bytes(views) == bytes
        }),
    decreases parsed.len(),
{
    let view = |contents: Option<Contents>| view_of(contents);
    if parsed.len() > 0 {
        law_size_is_the_sum(parsed.drop_last(), size);
        assert(parsed.map_values(view).drop_last() =~= parsed.drop_last().map_values(view));
    }
}

/// The hash of parsed records is the digest of the bytes of all that were parsed to data, one after
/// the other.
pub proof fn law_hash_is_the_digest_of_all(parsed: Seq<Option<Contents>>)
    ensures
        hash_of(parsed.map_values(|contents: Option<Contents>| view_of(contents))) == xxh3_digest(
            parsed.map_values(
                |contents: Option<Contents>|
                    match contents {
                        Some(contents) => contents.hash_input@,
                        None => Seq::empty(),
                    },
            ).flatten(),
        ),
{
    lemma_hash_input_is_flat(parsed);
}

/// The bytes that parsed records feed to a hasher are those of all that were parsed to data, one
/// after the other.
proof fn lemma_hash_input_is_flat(parsed: Seq<Option<Contents>>)
    ensures
        total_hash_input(parsed.map_values(|contents: Option<Contents>| view_of(contents)))
            == parsed.map_values(
            |contents: Option<Contents>|
                match contents {
                    Some(contents) => contents.hash_input@,
                    None => Seq::empty(),
                },
        ).flatten(),
    decreases parsed.len(),
{
    let view = |contents: Option<Contents>| view_of(contents);
    let bytes = |contents: Option<Contents>|
        match contents {
            Some(contents) => contents.hash_input@,
            None => Seq::<u8>::empty(),
        };
    let inputs = parsed.map_values(bytes);
    inputs.lemma_flatten_and_flatten_alt_are_equivalent();
    if parsed.len() > 0 {
        let front = parsed.drop_last();
        lemma_hash_input_is_flat(front);
        front.map_values(bytes).lemma_flatten_and_flatten_alt_are_equivalent();
        assert(parsed.map_values(view).drop_last() =~= front.map_values(view));
        assert(inputs.drop_last() =~= front.map_values(bytes));
    }
}

} // verus!
