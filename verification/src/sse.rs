//! Incremental decoding of a server-sent event stream.
//!
//! Bytes arrive in chunks of any size. An event ends at the first blank line; its payload is made
//! of its `data` fields. Events without a payload (comments, heartbeats) are dropped.
use vstd::prelude::*;
use vstd::slice::slice_subrange;

verus! {

/// The byte that ends a line.
pub const LF: u8 = 10;

/// The byte that may precede `LF` at the end of a line.
pub const CR: u8 = 13;

/// The byte that is dropped once after the colon of a field.
pub const SPACE: u8 = 32;

/// The name of the field that carries payload, with its colon: `data:`.
pub open spec fn data_prefix() -> Seq<u8> {
    seq![100u8, 97u8, 116u8, 97u8, 58u8]
}

/// The length of the delimiter that stands at `i`: 2 for `LF LF`, 4 for `CR LF CR LF`, and 0 where
/// there is none.
pub open spec fn delimiter_len(s: Seq<u8>, i: int) -> int {
    if i + 1 < s.len() && s[i] == LF && s[i + 1] == LF {
        2
    } else if i + 3 < s.len() && s[i] == CR && s[i + 1] == LF && s[i + 2] == CR && s[i + 3] == LF {
        4
    } else {
        0
    }
}

/// The first delimiter of `s` at or after `i`: its position and its length.
pub open spec fn first_delimiter_from(s: Seq<u8>, i: int) -> Option<(int, int)>
    decreases s.len() - i,
{
    if i >= s.len() {
        None
    } else if delimiter_len(s, i) > 0 {
        Some((i, delimiter_len(s, i)))
    } else {
        first_delimiter_from(s, i + 1)
    }
}

/// The first delimiter of `s`: its position and its length.
pub open spec fn first_delimiter(s: Seq<u8>) -> Option<(int, int)> {
    first_delimiter_from(s, 0)
}

/// The lines of `s`: the parts between its `LF` bytes. There is always at least one.
pub open spec fn lines(s: Seq<u8>) -> Seq<Seq<u8>>
    decreases s.len(),
{
    if s.len() == 0 {
        seq![Seq::empty()]
    } else if s.last() == LF {
        lines(s.drop_last()).push(Seq::empty())
    } else {
        let front = lines(s.drop_last());
        front.drop_last().push(front.last().push(s.last()))
    }
}

/// `line` without one `CR` at its end.
pub open spec fn without_cr(line: Seq<u8>) -> Seq<u8> {
    if line.len() > 0 && line.last() == CR {
        line.drop_last()
    } else {
        line
    }
}

/// What a line that may end in `CR` adds to a payload, if it is a `data` field: all that follows
/// the colon, without one leading space.
pub open spec fn data_field(raw: Seq<u8>) -> Option<Seq<u8>> {
    let line = without_cr(raw);
    if data_prefix().is_prefix_of(line) {
        let value = line.skip(5);
        Some(
            if value.len() > 0 && value[0] == SPACE {
                value.skip(1)
            } else {
                value
            },
        )
    } else {
        None
    }
}

/// `payload` with the value of one more `data` field: separated by `LF`, unless there is nothing
/// to separate it from.
pub open spec fn with_field(payload: Seq<u8>, value: Seq<u8>) -> Seq<u8> {
    if payload.len() > 0 {
        payload.push(LF) + value
    } else {
        value
    }
}

/// The payload that the fields in `ls` make up.
pub open spec fn payload_of_lines(ls: Seq<Seq<u8>>) -> Seq<u8>
    decreases ls.len(),
{
    if ls.len() == 0 {
        Seq::empty()
    } else {
        let front = payload_of_lines(ls.drop_last());
        match data_field(ls.last()) {
            Some(value) => with_field(front, value),
            None => front,
        }
    }
}

/// The payload of an event, given without its delimiter.
pub open spec fn event_payload(event: Seq<u8>) -> Seq<u8> {
    payload_of_lines(lines(event))
}

/// The payload of the first event in `s` that has one, and what is left behind that event. Without
/// such an event, `None` and what follows the last delimiter.
pub open spec fn next_event(s: Seq<u8>) -> (Option<Seq<u8>>, Seq<u8>)
    decreases s.len(),
{
    proof {
        lemma_first_delimiter(s, 0);
    }
    match first_delimiter(s) {
        Some((end, len)) => {
            let payload = event_payload(s.take(end));
            let rest = s.skip(end + len);
            if payload.len() > 0 {
                (Some(payload), rest)
            } else {
                next_event(rest)
            }
        },
        None => (None, s),
    }
}

/// The first delimiter of `s` from `i` on lies in `s`, and there is none between `i` and it.
pub proof fn lemma_first_delimiter(s: Seq<u8>, i: int)
    requires
        0 <= i,
    ensures
        match first_delimiter_from(s, i) {
            Some((end, len)) => {
                &&& i <= end
                &&& end + len <= s.len()
                &&& len == delimiter_len(s, end)
                &&& len > 0
                &&& forall|j: int| i <= j < end ==> #[trigger] delimiter_len(s, j) == 0
            },
            None => forall|j: int| i <= j < s.len() ==> #[trigger] delimiter_len(s, j) == 0,
        },
    decreases s.len() - i,
{
    if i < s.len() && delimiter_len(s, i) <= 0 {
        lemma_first_delimiter(s, i + 1);
    }
}

/// The first position in `buffer` at which an event ends, and the length of the delimiter there.
pub fn find_event_boundary(buffer: &[u8]) -> (res: Option<(usize, usize)>)
    ensures
        match res {
            Some((end, len)) => first_delimiter(buffer@) == Some((end as int, len as int)),
            None => first_delimiter(buffer@) is None,
        },
        match res {
            Some((end, len)) => {
                &&& end + len <= buffer@.len()
                &&& len == delimiter_len(buffer@, end as int)
                &&& len > 0
                &&& forall|j: int| 0 <= j < end ==> #[trigger] delimiter_len(buffer@, j) == 0
            },
            None => forall|j: int|
                0 <= j < buffer@.len() ==> #[trigger] delimiter_len(buffer@, j) == 0,
        },
{
    proof {
        lemma_first_delimiter(buffer@, 0);
    }
    for idx in 0..buffer.len()
        invariant
            first_delimiter(buffer@) == first_delimiter_from(buffer@, idx as int),
            forall|j: int| 0 <= j < idx ==> #[trigger] delimiter_len(buffer@, j) == 0,
    {
        let rest: usize = buffer.len() - idx;
        if rest > 1 && buffer[idx] == LF && buffer[idx + 1] == LF {
            return Some((idx, 2));
        }
        if rest > 3 && buffer[idx] == CR && buffer[idx + 1] == LF && buffer[idx + 2] == CR
            && buffer[idx + 3] == LF {
            return Some((idx, 4));
        }
    }
    None
}

/// Whether `line` starts with `data:`.
fn is_data_field(line: &[u8]) -> (res: bool)
    ensures
        res == data_prefix().is_prefix_of(line@),
{
    let res = line.len() >= 5 && line[0] == 100 && line[1] == 97 && line[2] == 116 && line[3] == 97
        && line[4] == 58;
    assert(data_prefix().is_prefix_of(line@) ==> line@.len() >= 5 && forall|i: int|
        0 <= i < 5 ==> #[trigger] data_prefix()[i] == line@[i]);
    assert(data_prefix()[0] == 100 && data_prefix()[1] == 97 && data_prefix()[2] == 116
        && data_prefix()[3] == 97 && data_prefix()[4] == 58);
    res
}

/// Adds to `payload` what `raw`, one line of an event, says.
fn append_line(payload: &mut Vec<u8>, raw: &[u8])
    ensures
        final(payload)@ == match data_field(raw@) {
            Some(value) => with_field(old(payload)@, value),
            None => old(payload)@,
        },
{
    let len: usize = raw.len();
    let end: usize = if len > 0 && raw[len - 1] == CR {
        len - 1
    } else {
        len
    };
    let line = slice_subrange(raw, 0, end);
    if is_data_field(line) {
        if payload.len() > 0 {
            payload.push(LF);
        }
        let start: usize = if end > 5 && line[5] == SPACE {
            6
        } else {
            5
        };
        let value = slice_subrange(line, start, end);
        let ghost rest = line@.skip(5);
        assert(value@ =~= if rest.len() > 0 && rest[0] == SPACE {
            rest.skip(1)
        } else {
            rest
        });
        payload.extend_from_slice(value);
    }
}

/// The payload of `event`, which is given without its delimiter: the values of its `data` fields,
/// one line each.
pub fn parse_sse_event_payload(event: &[u8]) -> (res: Vec<u8>)
    ensures
        res@ == event_payload(event@),
{
    let mut payload: Vec<u8> = Vec::new();
    let mut start: usize = 0;
    let ghost mut done: Seq<Seq<u8>> = Seq::empty();
    assert(event@.subrange(0, 0) =~= Seq::<u8>::empty());
    for i in 0..event.len()
        invariant
            start <= i,
            lines(event@.take(i as int)) == done.push(event@.subrange(start as int, i as int)),
            payload@ == payload_of_lines(done),
    {
        assert(event@.take(i + 1).drop_last() =~= event@.take(i as int));
        if event[i] == LF {
            append_line(&mut payload, slice_subrange(event, start, i));
            proof {
                let line = event@.subrange(start as int, i as int);
                assert(done.push(line).drop_last() =~= done);
                done = done.push(line);
                assert(event@.subrange(i + 1, i + 1) =~= Seq::<u8>::empty());
            }
            start = i + 1;
        } else {
            assert(event@.subrange(start as int, i as int).push(event@[i as int])
                =~= event@.subrange(start as int, i + 1));
        }
    }
    append_line(&mut payload, slice_subrange(event, start, event.len()));
    proof {
        let line = event@.subrange(start as int, event@.len() as int);
        assert(event@.take(event@.len() as int) =~= event@);
        assert(done.push(line).drop_last() =~= done);
    }
    payload
}

/// The bytes of a stream that no event has been made of yet.
pub struct SseParser {
    buffer: Vec<u8>,
}

impl View for SseParser {
    type V = Seq<u8>;

    closed spec fn view(&self) -> Seq<u8> {
        self.buffer@
    }
}

impl SseParser {
    /// A parser at the start of a stream.
    pub fn new() -> (res: Self)
        ensures
            res@ == Seq::<u8>::empty(),
    {
        Self { buffer: Vec::new() }
    }

    /// Takes in the next bytes of the stream.
    pub fn push(&mut self, chunk: &[u8])
        ensures
            final(self)@ == old(self)@ + chunk@,
    {
        self.buffer.extend_from_slice(chunk);
    }

    /// Removes the next complete event that has a payload, and every event before it.
    pub fn next_event_payload(&mut self) -> (res: Option<Vec<u8>>)
        ensures
            match res {
                Some(payload) => next_event(old(self)@) == (Some(payload@), final(self)@),
                None => next_event(old(self)@) == (None::<Seq<u8>>, final(self)@),
            },
            res matches Some(payload) ==> payload@.len() > 0,
    {
        loop
            invariant
                next_event(old(self)@) == next_event(self@),
            decreases self@.len(),
        {
            match find_event_boundary(&self.buffer) {
                Some((event_end, delim_len)) => {
                    let ghost before = self.buffer@;
                    assert(before.len() == self.buffer.len());
                    let mut event = self.buffer.split_off(event_end + delim_len);
                    std::mem::swap(&mut event, &mut self.buffer);
                    event.truncate(event_end);
                    assert(event@ =~= before.take(event_end as int));
                    let payload = parse_sse_event_payload(&event);
                    if payload.len() > 0 {
                        return Some(payload);
                    }
                },
                None => {
                    return None;
                },
            }
        }
    }
}

} // verus!
