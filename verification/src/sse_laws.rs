//! What holds of the event decoder over a whole stream.
use vstd::prelude::*;

use crate::sse::{
    data_field, data_prefix, delimiter_len, event_payload, first_delimiter, first_delimiter_from,
    lemma_first_delimiter, lines, next_event, payload_of_lines, with_field, CR, LF, SPACE,
};

verus! {

/// Whatever is left behind the next event is shorter than what was there before it.
pub proof fn lemma_next_event_shrinks(s: Seq<u8>)
    ensures
        next_event(s).0 is Some ==> next_event(s).1.len() < s.len(),
    decreases s.len(),
{
    lemma_first_delimiter(s, 0);
    if let Some((end, len)) = first_delimiter(s) {
        if event_payload(s.take(end)).len() == 0 {
            lemma_next_event_shrinks(s.skip(end + len));
        }
    }
}

/// The payloads that `SseParser::next_event_payload` yields from `s` until it yields `None`, and
/// the bytes that the parser then holds.
pub open spec fn drain(s: Seq<u8>) -> (Seq<Seq<u8>>, Seq<u8>)
    decreases s.len(),
{
    proof {
        lemma_next_event_shrinks(s);
    }
    match next_event(s) {
        (Some(payload), rest) => (seq![payload] + drain(rest).0, drain(rest).1),
        (None, rest) => (Seq::empty(), rest),
    }
}

/// The payloads that a parser yields that is drained after each chunk, and the bytes that it then
/// holds.
pub open spec fn drain_chunks(chunks: Seq<Seq<u8>>) -> (Seq<Seq<u8>>, Seq<u8>)
    decreases chunks.len(),
{
    if chunks.len() == 0 {
        (Seq::empty(), Seq::empty())
    } else {
        let before = drain_chunks(chunks.drop_last());
        let after = drain(before.1 + chunks.last());
        (before.0 + after.0, after.1)
    }
}

/// The bytes of `chunks`, one chunk after the other.
pub open spec fn joined(chunks: Seq<Seq<u8>>) -> Seq<u8>
    decreases chunks.len(),
{
    if chunks.len() == 0 {
        Seq::empty()
    } else {
        joined(chunks.drop_last()) + chunks.last()
    }
}

/// One step of `drain`, event by event.
proof fn lemma_drain_step(s: Seq<u8>)
    ensures
        match first_delimiter(s) {
            Some((end, len)) => {
                let payload = event_payload(s.take(end));
                let rest = drain(s.skip(end + len));
                drain(s) == if payload.len() > 0 {
                    (seq![payload] + rest.0, rest.1)
                } else {
                    rest
                }
            },
            None => drain(s) == (Seq::<Seq<u8>>::empty(), s),
        },
{
}

/// Where `s` has no delimiter before `end`, and one at `end`, that one is its first.
proof fn lemma_is_first(s: Seq<u8>, i: int, end: int)
    requires
        0 <= i <= end < s.len(),
        delimiter_len(s, end) > 0,
        forall|j: int| i <= j < end ==> #[trigger] delimiter_len(s, j) == 0,
    ensures
        first_delimiter_from(s, i) == Some((end, delimiter_len(s, end))),
    decreases end - i,
{
    if i < end {
        lemma_is_first(s, i + 1, end);
    }
}

/// The end of the first complete event stays where it is, whatever bytes follow.
pub proof fn law_boundary_is_stable(s: Seq<u8>, more: Seq<u8>)
    requires
        first_delimiter(s) is Some,
    ensures
        first_delimiter(s + more) == first_delimiter(s),
{
    lemma_first_delimiter(s, 0);
    let (end, len) = first_delimiter(s)->0;
    let all = s + more;
    assert forall|j: int| 0 <= j < end implies #[trigger] delimiter_len(all, j) == 0 by {
        assert(delimiter_len(s, j) == 0);
    }
    lemma_is_first(all, 0, end);
}

/// Draining the parser between two chunks changes neither the payloads nor what is left.
pub proof fn law_split_in_two(first: Seq<u8>, second: Seq<u8>)
    ensures
        drain(first + second) == (
            drain(first).0 + drain(drain(first).1 + second).0,
            drain(drain(first).1 + second).1,
        ),
    decreases first.len(),
{
    let all = first + second;
    lemma_first_delimiter(first, 0);
    lemma_drain_step(first);
    lemma_drain_step(all);
    if let Some((end, len)) = first_delimiter(first) {
        law_boundary_is_stable(first, second);
        assert(all.take(end) =~= first.take(end));
        assert(all.skip(end + len) =~= first.skip(end + len) + second);
        law_split_in_two(first.skip(end + len), second);
        let rest = drain(drain(first).1 + second);
        let payload = event_payload(first.take(end));
        if payload.len() > 0 {
            assert(seq![payload] + (drain(first.skip(end + len)).0 + rest.0) =~= (seq![payload]
                + drain(first.skip(end + len)).0) + rest.0);
        }
    }
}

/// How a stream is cut into chunks changes neither its payloads nor what is left.
pub proof fn law_chunking(chunks: Seq<Seq<u8>>)
    ensures
        drain_chunks(chunks) == drain(joined(chunks)),
    decreases chunks.len(),
{
    if chunks.len() == 0 {
        lemma_drain_step(Seq::empty());
    } else {
        law_chunking(chunks.drop_last());
        law_split_in_two(joined(chunks.drop_last()), chunks.last());
    }
}

/// A drained parser holds no complete event.
pub proof fn law_drained(s: Seq<u8>)
    ensures
        first_delimiter(drain(s).1) is None,
        forall|i: int| 0 <= i < drain(s).0.len() ==> #[trigger] drain(s).0[i].len() > 0,
    decreases s.len(),
{
    lemma_first_delimiter(s, 0);
    lemma_drain_step(s);
    if let Some((end, len)) = first_delimiter(s) {
        law_drained(s.skip(end + len));
    }
}

/// An event without payload, such as a heartbeat, changes nothing.
pub proof fn law_event_without_payload(event: Seq<u8>, delimiter: Seq<u8>, s: Seq<u8>)
    requires
        first_delimiter(event + delimiter) == Some((event.len() as int, delimiter.len() as int)),
        event_payload(event).len() == 0,
    ensures
        drain(event + delimiter + s) == drain(s),
{
    let all = event + delimiter + s;
    law_boundary_is_stable(event + delimiter, s);
    lemma_drain_step(all);
    assert(all.take(event.len() as int) =~= event);
    assert(all.skip((event.len() + delimiter.len()) as int) =~= s);
}

/// The delimiter of an event: `CR LF CR LF`, or `LF LF`.
pub open spec fn delimiter(crlf: bool) -> Seq<u8> {
    if crlf {
        seq![CR, LF, CR, LF]
    } else {
        seq![LF, LF]
    }
}

/// One line of a payload as a line of an event: `data: ` and the line.
pub open spec fn data_line(line: Seq<u8>) -> Seq<u8> {
    data_prefix().push(SPACE) + line
}

/// The text of an event that carries the lines `ls`, without its delimiter.
pub open spec fn event_text(ls: Seq<Seq<u8>>, crlf: bool) -> Seq<u8>
    decreases ls.len(),
{
    if ls.len() == 0 {
        Seq::empty()
    } else if ls.len() == 1 {
        data_line(ls[0])
    } else {
        let front = event_text(ls.drop_last(), crlf);
        (if crlf {
            front.push(CR)
        } else {
            front
        }).push(LF) + data_line(ls.last())
    }
}

/// A stream of events, one for each payload, each with its own kind of line end.
pub open spec fn framed(payloads: Seq<Seq<u8>>, crlf: Seq<bool>) -> Seq<u8>
    decreases payloads.len(),
{
    if payloads.len() == 0 {
        Seq::empty()
    } else {
        event_text(lines(payloads[0]), crlf[0]) + delimiter(crlf[0]) + framed(
            payloads.skip(1),
            crlf.skip(1),
        )
    }
}

/// A line that does not end in `CR`.
pub open spec fn clean(line: Seq<u8>) -> bool {
    line.len() > 0 ==> line.last() != CR
}

/// A payload that events can carry: its first line is not empty, and no line ends in `CR`.
pub open spec fn sendable(payload: Seq<u8>) -> bool {
    &&& lines(payload)[0].len() > 0
    &&& forall|i: int| 0 <= i < lines(payload).len() ==> clean(#[trigger] lines(payload)[i])
}

/// The lines `ls`, separated by `LF`.
pub open spec fn unlines(ls: Seq<Seq<u8>>) -> Seq<u8>
    decreases ls.len(),
{
    if ls.len() == 0 {
        Seq::empty()
    } else if ls.len() == 1 {
        ls[0]
    } else {
        unlines(ls.drop_last()).push(LF) + ls.last()
    }
}

/// Bytes are made of their lines, and no line holds `LF`.
pub proof fn law_lines(s: Seq<u8>)
    ensures
        lines(s).len() > 0,
        unlines(lines(s)) == s,
        forall|i: int| 0 <= i < lines(s).len() ==> !(#[trigger] lines(s)[i]).contains(LF),
    decreases s.len(),
{
    if s.len() == 0 {
        assert(s =~= Seq::empty());
    } else {
        let front = lines(s.drop_last());
        law_lines(s.drop_last());
        if s.last() == LF {
            assert(lines(s).drop_last() =~= front);
            assert(unlines(lines(s)) =~= s);
        } else {
            assert(lines(s).drop_last() =~= front.drop_last());
            assert(unlines(lines(s)) =~= unlines(front).push(s.last()));
            assert(s.drop_last().push(s.last()) =~= s);
        }
    }
}

/// Bytes without `LF` behind an `LF` are one more line.
proof fn lemma_one_more_line(s: Seq<u8>, line: Seq<u8>)
    requires
        !line.contains(LF),
    ensures
        lines(s.push(LF) + line) == lines(s).push(line),
    decreases line.len(),
{
    let all = s.push(LF) + line;
    if line.len() == 0 {
        assert(all =~= s.push(LF));
        assert(s.push(LF).drop_last() =~= s);
        assert(line =~= Seq::empty());
    } else {
        let front = line.drop_last();
        assert(line.contains(line.last()));
        lemma_one_more_line(s, front);
        assert(all.drop_last() =~= s.push(LF) + front);
        assert(lines(s).push(front).drop_last() =~= lines(s));
        assert(front.push(line.last()) =~= line);
    }
}

/// Bytes without `LF` are one line.
proof fn lemma_single_line(s: Seq<u8>)
    requires
        !s.contains(LF),
    ensures
        lines(s) == seq![s],
    decreases s.len(),
{
    if s.len() == 0 {
        assert(s =~= Seq::empty());
    } else {
        assert(s.contains(s.last()));
        lemma_single_line(s.drop_last());
        assert(s.drop_last().push(s.last()) =~= s);
    }
}

/// A line of a payload is read back from its line in an event, with or without a `CR` behind it.
proof fn lemma_data_line(line: Seq<u8>)
    requires
        clean(line),
        !line.contains(LF),
    ensures
        data_field(data_line(line)) == Some(line),
        data_field(data_line(line).push(CR)) == Some(line),
        !data_line(line).contains(LF),
{
    let text = data_line(line);
    assert(text.push(CR).drop_last() =~= text);
    assert(data_prefix().is_prefix_of(text)) by {
        assert(text.take(5) =~= data_prefix());
    }
    assert(text.skip(5).skip(1) =~= line);
    assert forall|i: int| 0 <= i < text.len() implies text[i] != LF by {
        if i >= 6 {
            assert(line.contains(text[i]));
        }
    }
}

/// The lines that stand in the text of an event.
proof fn lemma_event_lines(ls: Seq<Seq<u8>>, crlf: bool)
    requires
        ls.len() > 0,
        forall|i: int|
            0 <= i < ls.len() ==> clean(#[trigger] ls[i]) && !ls[i].contains(LF),
    ensures
        lines(event_text(ls, crlf)) == Seq::new(
            ls.len(),
            |i: int|
                if crlf && i < ls.len() - 1 {
                    data_line(ls[i]).push(CR)
                } else {
                    data_line(ls[i])
                },
        ),
    decreases ls.len(),
{
    lemma_data_line(ls.last());
    if ls.len() == 1 {
        lemma_single_line(data_line(ls[0]));
    } else {
        let front = ls.drop_last();
        let text = event_text(front, crlf);
        lemma_event_lines(front, crlf);
        if crlf {
            assert(text.push(CR).drop_last() =~= text);
            lemma_one_more_line(text.push(CR), data_line(ls.last()));
        } else {
            lemma_one_more_line(text, data_line(ls.last()));
        }
    }
}

/// The payload of lines that each carry a line of `ls`, with or without a `CR` behind it.
proof fn lemma_payload_of_lines(raw: Seq<Seq<u8>>, ls: Seq<Seq<u8>>)
    requires
        raw.len() == ls.len(),
        ls.len() > 0,
        ls[0].len() > 0,
        forall|i: int| 0 <= i < ls.len() ==> data_field(#[trigger] raw[i]) == Some(ls[i]),
    ensures
        payload_of_lines(raw) == unlines(ls),
        unlines(ls).len() > 0,
    decreases ls.len(),
{
    assert(raw.last() == raw[raw.len() - 1]);
    if ls.len() == 1 {
        assert(payload_of_lines(raw.drop_last()).len() == 0);
    } else {
        lemma_payload_of_lines(raw.drop_last(), ls.drop_last());
    }
}

/// Whether an `LF` stands at `j`.
spec fn is_lf(text: Seq<u8>, j: int) -> bool {
    text[j] == LF
}

/// Whether no delimiter stands in `text`, nor across its end and a delimiter behind it: a byte
/// that belongs to no line end follows every `LF`, and `text` does not end in `CR`.
spec fn unbroken(text: Seq<u8>) -> bool {
    &&& text.len() > 0
    &&& text.last() != CR
    &&& forall|j: int|
        0 <= j < text.len() && #[trigger] is_lf(text, j) ==> j + 1 < text.len() && text[j + 1]
            != LF && text[j + 1] != CR
}

/// The text of an event holds no delimiter.
proof fn lemma_event_text(ls: Seq<Seq<u8>>, crlf: bool)
    requires
        ls.len() > 0,
        forall|i: int|
            0 <= i < ls.len() ==> clean(#[trigger] ls[i]) && !ls[i].contains(LF),
    ensures
        unbroken(event_text(ls, crlf)),
    decreases ls.len(),
{
    let line = data_line(ls.last());
    lemma_data_line(ls.last());
    let text = event_text(ls, crlf);
    let start = text.len() - line.len();
    if ls.len() > 1 {
        lemma_event_text(ls.drop_last(), crlf);
    }
    assert forall|j: int| 0 <= j < text.len() && #[trigger] is_lf(text, j) implies j + 1
        < text.len() && text[j + 1] != LF && text[j + 1] != CR by {
        if j >= start {
            assert(line.contains(text[j]));
        } else {
            let front = event_text(ls.drop_last(), crlf);
            if j < front.len() {
                assert(is_lf(front, j));
                assert(text[j + 1] == front[j + 1]);
            } else {
                assert(text[start] == line[0]);
            }
        }
    }
}

/// Behind a text that holds no delimiter, a delimiter is the first.
proof fn lemma_delimiter_is_first(text: Seq<u8>, crlf: bool)
    requires
        unbroken(text),
    ensures
        first_delimiter(text + delimiter(crlf)) == Some(
            (text.len() as int, delimiter(crlf).len() as int),
        ),
{
    let s = text + delimiter(crlf);
    let n = text.len() as int;
    assert forall|j: int| 0 <= j < n implies #[trigger] delimiter_len(s, j) == 0 by {
        assert(!is_lf(text, j) || (s[j + 1] != LF && s[j + 1] != CR));
        if j + 1 < n {
            assert(!is_lf(text, j + 1) || (s[j + 2] != LF && s[j + 2] != CR));
        }
    }
    lemma_is_first(s, 0, n);
}

/// An event that carries a payload gives it back.
proof fn lemma_event_payload(payload: Seq<u8>, crlf: bool)
    requires
        sendable(payload),
    ensures
        event_payload(event_text(lines(payload), crlf)) == payload,
{
    let ls = lines(payload);
    law_lines(payload);
    let text = event_text(ls, crlf);
    lemma_event_lines(ls, crlf);
    assert forall|i: int| 0 <= i < ls.len() implies data_field(#[trigger] lines(text)[i]) == Some(
        ls[i],
    ) by {
        lemma_data_line(ls[i]);
    }
    lemma_payload_of_lines(lines(text), ls);
}

/// Payloads that events can carry, each written as an event, are read back in order, and nothing
/// is left.
pub proof fn law_framing_round_trip(payloads: Seq<Seq<u8>>, crlf: Seq<bool>)
    requires
        crlf.len() == payloads.len(),
        forall|i: int| 0 <= i < payloads.len() ==> sendable(#[trigger] payloads[i]),
    ensures
        drain(framed(payloads, crlf)) == (payloads, Seq::<u8>::empty()),
    decreases payloads.len(),
{
    let all = framed(payloads, crlf);
    lemma_drain_step(all);
    if payloads.len() > 0 {
        let text = event_text(lines(payloads[0]), crlf[0]);
        let end = delimiter(crlf[0]);
        let rest = framed(payloads.skip(1), crlf.skip(1));
        law_lines(payloads[0]);
        lemma_event_payload(payloads[0], crlf[0]);
        lemma_event_text(lines(payloads[0]), crlf[0]);
        lemma_delimiter_is_first(text, crlf[0]);
        law_boundary_is_stable(text + end, rest);
        assert(all.take(text.len() as int) =~= text);
        assert(all.skip((text.len() + end.len()) as int) =~= rest);
        assert(payloads[0].len() > 0);
        law_framing_round_trip(payloads.skip(1), crlf.skip(1));
        assert(seq![payloads[0]] + payloads.skip(1) =~= payloads);
    }
}

/// An event ends at the first place where two line ends of the same kind follow each other, and
/// nowhere else.
pub proof fn law_first_boundary(s: Seq<u8>)
    ensures
        match first_delimiter(s) {
            Some((end, len)) => {
                &&& 0 <= end
                &&& end + len <= s.len()
                &&& s.subrange(end, end + len) == seq![10u8, 10u8] || s.subrange(end, end + len)
                    == seq![13u8, 10u8, 13u8, 10u8]
                &&& forall|j: int|
                    0 <= j < end ==> !(#[trigger] s[j] == 10 && s[j + 1] == 10) && !(s[j] == 13
                        && j + 3 < s.len() && s[j + 1] == 10 && s[j + 2] == 13 && s[j + 3] == 10)
            },
            None => forall|j: int|
                0 <= j < s.len() ==> !(#[trigger] s[j] == 10 && j + 1 < s.len() && s[j + 1] == 10)
                    && !(s[j] == 13 && j + 3 < s.len() && s[j + 1] == 10 && s[j + 2] == 13 && s[j
                    + 3] == 10),
        },
{
    lemma_first_delimiter(s, 0);
    match first_delimiter(s) {
        Some((end, len)) => {
            let found = s.subrange(end, end + len);
            if s[end] == 10 {
                assert(found =~= seq![10u8, 10u8]);
            } else {
                assert(found =~= seq![13u8, 10u8, 13u8, 10u8]);
            }
            assert forall|j: int| 0 <= j < end implies !(#[trigger] s[j] == 10 && s[j + 1] == 10)
                && !(s[j] == 13 && j + 3 < s.len() && s[j + 1] == 10 && s[j + 2] == 13 && s[j + 3]
                == 10) by {
                assert(delimiter_len(s, j) == 0);
            }
        },
        None => {
            assert forall|j: int| 0 <= j < s.len() implies !(#[trigger] s[j] == 10 && j + 1
                < s.len() && s[j + 1] == 10) && !(s[j] == 13 && j + 3 < s.len() && s[j + 1] == 10
                && s[j + 2] == 13 && s[j + 3] == 10) by {
                assert(delimiter_len(s, j) == 0);
            }
        },
    }
}

/// The first complete event is taken off the stream: its payload is the next one, or, where it has
/// none, it is as if the event had not been there. Without a complete event there is no payload,
/// and nothing is taken.
pub proof fn law_next_event(event: Seq<u8>, delimiter: Seq<u8>, rest: Seq<u8>)
    ensures
        first_delimiter(event + delimiter) == Some((event.len() as int, delimiter.len() as int))
            && event_payload(event).len() > 0 ==> next_event(event + delimiter + rest) == (
            Some(event_payload(event)),
            rest,
        ),
        first_delimiter(event + delimiter) == Some((event.len() as int, delimiter.len() as int))
            && event_payload(event).len() == 0 ==> next_event(event + delimiter + rest)
            == next_event(rest),
        first_delimiter(rest) is None ==> next_event(rest) == (None::<Seq<u8>>, rest),
{
    if first_delimiter(event + delimiter) == Some((event.len() as int, delimiter.len() as int)) {
        let all = event + delimiter + rest;
        law_boundary_is_stable(event + delimiter, rest);
        assert(all.take(event.len() as int) =~= event);
        assert(all.skip((event.len() + delimiter.len()) as int) =~= rest);
    }
}

/// The lines on both sides of a line end are the lines of both sides.
pub proof fn law_lines_of_both_sides(first: Seq<u8>, second: Seq<u8>)
    ensures
        lines(first.push(10) + second) == lines(first) + lines(second),
    decreases second.len(),
{
    let all = first.push(10) + second;
    law_lines(second);
    if second.len() == 0 {
        assert(all =~= first.push(10));
        assert(first.push(10).drop_last() =~= first);
        assert(lines(all) =~= lines(first) + lines(second));
    } else {
        let front = second.drop_last();
        law_lines_of_both_sides(first, front);
        law_lines(front);
        assert(all.drop_last() =~= first.push(10) + front);
        assert(lines(all) =~= lines(first) + lines(second));
    }
}

/// A line that is no `data` field adds nothing, wherever it stands.
proof fn lemma_line_without_data(before: Seq<Seq<u8>>, line: Seq<u8>, behind: Seq<Seq<u8>>)
    requires
        data_field(line) is None,
    ensures
        payload_of_lines(before.push(line) + behind) == payload_of_lines(before + behind),
    decreases behind.len(),
{
    if behind.len() == 0 {
        assert(before.push(line) + behind =~= before.push(line));
        assert(before.push(line).drop_last() =~= before);
        assert(before + behind =~= before);
    } else {
        lemma_line_without_data(before, line, behind.drop_last());
        assert((before.push(line) + behind).drop_last() =~= before.push(line)
            + behind.drop_last());
        assert((before + behind).drop_last() =~= before + behind.drop_last());
    }
}

/// A line that does not start with `data:` changes no payload, whether it stands before the other
/// lines of its event, between them or behind them. On its own it carries none.
pub proof fn law_other_lines_change_nothing(before: Seq<u8>, line: Seq<u8>, behind: Seq<u8>)
    requires
        !line.contains(10u8),
        line.len() < 5 || line.take(5) != seq![100u8, 97u8, 116u8, 97u8, 58u8],
    ensures
        event_payload(before.push(10) + line.push(10) + behind) == event_payload(
            before.push(10) + behind,
        ),
        event_payload(line.push(10) + behind) == event_payload(behind),
        event_payload(before.push(10) + line) == event_payload(before),
        event_payload(line) == Seq::<u8>::empty(),
{
    assert(data_field(line) is None) by {
        let prefix = seq![100u8, 97u8, 116u8, 97u8, 58u8];
        if data_field(line) is Some {
            assert(line.take(5) =~= prefix) by {
                assert forall|i: int| 0 <= i < 5 implies line[i] == prefix[i] by {
                    assert(data_prefix()[i] == prefix[i]);
                }
            }
        }
    }
    lemma_single_line(line);
    law_lines_of_both_sides(line, behind);
    law_lines_of_both_sides(before, line);
    law_lines_of_both_sides(before, line.push(10) + behind);
    law_lines_of_both_sides(before, behind);
    assert(before.push(10) + (line.push(10) + behind) =~= before.push(10) + line.push(10)
        + behind);
    let empty = Seq::<Seq<u8>>::empty();
    assert(seq![line] =~= empty.push(line));
    lemma_line_without_data(empty, line, lines(behind));
    assert(empty + lines(behind) =~= lines(behind));
    assert(empty.push(line) + lines(behind) =~= lines(line.push(10) + behind));
    lemma_line_without_data(lines(before), line, empty);
    assert(lines(before).push(line) + empty =~= lines(before.push(10) + line));
    assert(lines(before) + empty =~= lines(before));
    lemma_line_without_data(lines(before), line, lines(behind));
    assert(lines(before).push(line) + lines(behind) =~= lines(before) + lines(
        line.push(10) + behind,
    ));
    lemma_line_without_data(empty, line, empty);
    assert(empty.push(line) + empty =~= lines(line));
    assert(empty + empty =~= empty);
}

/// A line `data:` adds its value to the payload of the lines before it, behind a line end unless
/// there is no payload yet. The value is all that follows the colon, without one space at its start
/// and without one carriage return at its end.
pub proof fn law_data_lines_are_joined(before: Seq<u8>, value: Seq<u8>, space: bool, cr: bool)
    requires
        !value.contains(10u8),
        space || value.len() == 0 || value[0] != 32,
        cr || value.len() == 0 || value.last() != 13,
    ensures
        ({
            let line = seq![100u8, 97u8, 116u8, 97u8, 58u8] + (if space {
                seq![32u8]
            } else {
                Seq::empty()
            }) + value + (if cr {
                seq![13u8]
            } else {
                Seq::empty()
            });
            &&& event_payload(line) == value
            &&& event_payload(before.push(10) + line) == if event_payload(before).len() == 0 {
                value
            } else {
                event_payload(before).push(10) + value
            }
        }),
{
    let prefix = seq![100u8, 97u8, 116u8, 97u8, 58u8];
    let gap = if space {
        seq![32u8]
    } else {
        Seq::empty()
    };
    let end = if cr {
        seq![13u8]
    } else {
        Seq::empty()
    };
    let line = prefix + gap + value + end;
    assert(!line.contains(10u8)) by {
        if line.contains(10u8) {
            let i = choose|i: int| 0 <= i < line.len() && line[i] == 10u8;
            let start = prefix.len() + gap.len();
            if i < prefix.len() {
                assert(line[i] == prefix[i]);
            } else if start <= i < start + value.len() {
                assert(value[i - start] == 10u8);
            }
        }
    }
    assert(data_field(line) == Some(value)) by {
        let clean = prefix + gap + value;
        if cr {
            assert(line.last() == 13);
            assert(line.drop_last() =~= clean);
        } else {
            assert(line =~= clean);
            if value.len() > 0 {
                assert(line.last() == value.last());
            } else if space {
                assert(line.last() == 32);
            } else {
                assert(line.last() == 58);
            }
        }
        assert(data_prefix().is_prefix_of(clean)) by {
            assert(data_prefix() =~= prefix);
            assert(clean.take(5) =~= prefix);
        }
        let rest = clean.skip(5);
        assert(rest =~= gap + value);
        if space {
            assert(rest.skip(1) =~= value);
        } else {
            assert(rest =~= value);
        }
    }
    lemma_single_line(line);
    law_lines_of_both_sides(before, line);
    let empty = Seq::<Seq<u8>>::empty();
    assert(lines(line) =~= empty.push(line));
    assert(empty.push(line).drop_last() =~= empty);
    assert(payload_of_lines(empty).len() == 0);
    assert(event_payload(line) == value);
    assert(lines(before) + lines(line) =~= lines(before).push(line));
    assert(lines(before).push(line).drop_last() =~= lines(before));
    assert(event_payload(before.push(10) + line) == with_field(event_payload(before), value));
}

/// An event without bytes carries no payload.
pub proof fn law_empty_event()
    ensures
        event_payload(Seq::empty()) == Seq::<u8>::empty(),
{
    law_other_lines_change_nothing(Seq::empty(), Seq::empty(), Seq::empty());
}

} // verus!
