//! The event stream of the service: which request opens it, and what to do next with it.
use std::sync::Arc;
use vstd::prelude::*;
use vstd::string::StringExecFns;

use crate::batch::S2ReadBatch;
use crate::config::S2InputConfig;
use crate::error::S2Error;
use crate::sse::{next_event, SseParser};
use crate::sse_laws::drain;
use crate::text::{
    append_decimal, decimal, law_decimal_is_unique, law_trimmed_end, trim_end, trimmed_end,
};

verus! {

/// A `GET` request.
#[derive(Debug, PartialEq, Eq)]
pub struct StreamRequest {
    pub url: String,
    /// Names and values, in the order in which they are set.
    pub headers: Vec<(String, String)>,
    pub timeout_secs: u64,
}

/// The contents of a request.
pub struct RequestView {
    pub url: Seq<char>,
    pub headers: Seq<(Seq<char>, Seq<char>)>,
    pub timeout_secs: u64,
}

impl View for StreamRequest {
    type V = RequestView;

    open spec fn view(&self) -> RequestView {
        RequestView {
            url: self.url@,
            headers: self.headers@.map_values(|header: (String, String)| (header.0@, header.1@)),
            timeout_secs: self.timeout_secs,
        }
    }
}

/// Where the records of a stream are read from `seq_num` on.
pub open spec fn records_url(endpoint_url: Seq<char>, stream: Seq<char>, seq_num: u64) -> Seq<char> {
    trimmed_end(endpoint_url, '/') + "/v1/streams/"@ + stream + "/records?seq_num="@ + decimal(
        seq_num as nat,
    )
}

/// The headers of a request.
pub open spec fn request_headers(config: S2InputConfig) -> Seq<(Seq<char>, Seq<char>)> {
    let headers = seq![("Accept"@, "text/event-stream"@), ("S2-Basin"@, config.basin@)];
    match config.auth_token {
        Some(token) => headers.push(("Authorization"@, "Bearer "@ + token@)),
        None => headers,
    }
}

/// The request for the records from `seq_num` on.
pub open spec fn request_for(config: S2InputConfig, seq_num: u64) -> RequestView {
    RequestView {
        url: records_url(config.endpoint_url@, config.stream@, seq_num),
        headers: request_headers(config),
        timeout_secs: config.request_timeout_secs,
    }
}

/// The request for the records from `seq_num` on.
pub fn open_request(config: &S2InputConfig, seq_num: u64) -> (res: StreamRequest)
    ensures
        res@ == request_for(*config, seq_num),
        res.url@ == records_url(config.endpoint_url@, config.stream@, seq_num),
        res.timeout_secs == config.request_timeout_secs,
        res.headers@.len() == if config.auth_token is Some {
            3int
        } else {
            2
        },
        forall|i: int|
            #![trigger res.headers@[i]]
            0 <= i < res.headers@.len() ==> (res.headers@[i].0@, res.headers@[i].1@)
                == request_headers(*config)[i],
{
    let mut url = String::from_str(trim_end(config.endpoint_url.as_str(), '/'));
    url.append("/v1/streams/");
    url.append(config.stream.as_str());
    url.append("/records?seq_num=");
    append_decimal(&mut url, seq_num);
    let mut headers: Vec<(String, String)> = Vec::new();
    headers.push((String::from_str("Accept"), String::from_str("text/event-stream")));
    headers.push((String::from_str("S2-Basin"), config.basin.clone()));
    if let Some(token) = &config.auth_token {
        headers.push(
            (
                String::from_str("Authorization"),
                String::from_str("Bearer ").concat(token.as_str()),
            ),
        );
    }
    let res = StreamRequest { url, headers, timeout_secs: config.request_timeout_secs };
    assert(res@.headers =~= request_headers(*config));
    res
}

/// Slashes at the end of the base URL make no difference.
pub proof fn law_trailing_slash(endpoint_url: Seq<char>, stream: Seq<char>, seq_num: u64)
    ensures
        records_url(endpoint_url.push('/'), stream, seq_num) == records_url(
            endpoint_url,
            stream,
            seq_num,
        ),
{
    assert(endpoint_url.push('/').drop_last() =~= endpoint_url);
}

/// The URL of a request is the base URL without the slashes at its end, the path of the configured
/// stream, and the number to start from.
pub proof fn law_url_names_the_stream(
    config: S2InputConfig,
    base: Seq<char>,
    slashes: nat,
    seq_num: u64,
)
    requires
        config.endpoint_url@ == base + Seq::new(slashes, |i: int| '/'),
        base.len() > 0 ==> base.last() != '/',
    ensures
        request_for(config, seq_num).url == base + "/v1/streams/"@ + config.stream@
            + "/records?seq_num="@ + decimal(seq_num as nat),
{
    let url = config.endpoint_url@;
    let trimmed = trimmed_end(url, '/');
    law_trimmed_end(url, '/');
    if trimmed.len() > base.len() {
        assert(trimmed.last() == url[trimmed.len() - 1]);
        assert(false);
    }
    if trimmed.len() < base.len() {
        assert(url[base.len() - 1] == '/');
        assert(base.last() == url[base.len() - 1]);
        assert(false);
    }
    assert(trimmed =~= base);
}

/// Requests to one service that differ in the stream, or in the number to start from, have URLs
/// that differ.
pub proof fn law_urls_differ(
    config: S2InputConfig,
    seq_num: u64,
    other: S2InputConfig,
    other_seq_num: u64,
)
    requires
        config.endpoint_url@ == other.endpoint_url@,
    ensures
        config.stream@ != other.stream@ ==> request_for(config, seq_num).url != request_for(
            other,
            seq_num,
        ).url,
        config.stream@ == other.stream@ && seq_num != other_seq_num ==> request_for(
            config,
            seq_num,
        ).url != request_for(other, other_seq_num).url,
{
    let head = trimmed_end(config.endpoint_url@, '/') + "/v1/streams/"@;
    let path = "/records?seq_num="@;
    if request_for(config, seq_num).url == request_for(other, seq_num).url {
        let tail = path + decimal(seq_num as nat);
        let url = request_for(config, seq_num).url;
        assert(url =~= head + config.stream@ + tail);
        assert(url =~= head + other.stream@ + tail);
        let end = head.len() + config.stream@.len();
        assert(url.subrange(head.len() as int, end as int) =~= config.stream@);
        assert(url.subrange(head.len() as int, end as int) =~= other.stream@);
    }
    if config.stream@ == other.stream@ && request_for(config, seq_num).url == request_for(
        other,
        other_seq_num,
    ).url {
        let url = request_for(config, seq_num).url;
        let start = (head + config.stream@ + path).len() as int;
        assert(url.skip(start) =~= decimal(seq_num as nat));
        assert(url.skip(start) =~= decimal(other_seq_num as nat));
        law_decimal_is_unique(seq_num as nat, other_seq_num as nat);
    }
}

/// A request asks for events, names the basin, carries the token where there is one, and waits as
/// long as the configuration says. It carries nothing else.
pub proof fn law_request_carries_the_configuration(config: S2InputConfig, seq_num: u64)
    ensures
        ({
            let headers = request_for(config, seq_num).headers;
            &&& headers.contains(("Accept"@, "text/event-stream"@))
            &&& headers.contains(("S2-Basin"@, config.basin@))
            &&& config.auth_token matches Some(token) ==> {
                &&& headers.len() == 3
                &&& headers.contains(("Authorization"@, "Bearer "@ + token@))
            }
            &&& config.auth_token is None ==> {
                &&& headers.len() == 2
                &&& forall|i: int|
                    0 <= i < headers.len() ==> (#[trigger] headers[i]).0 != "Authorization"@
            }
            &&& forall|i: int, j: int|
                0 <= i < j < headers.len() ==> (#[trigger] headers[i]).0 != (
                #[trigger] headers[j]).0
        }),
        request_for(config, seq_num).timeout_secs == config.request_timeout_secs,
{
    let headers = request_for(config, seq_num).headers;
    reveal_strlit("Accept");
    reveal_strlit("S2-Basin");
    reveal_strlit("Authorization");
    assert("Accept"@.len() == 6 && "S2-Basin"@.len() == 8 && "Authorization"@.len() == 13);
    assert(headers[0] == ("Accept"@, "text/event-stream"@));
    assert(headers[1] == ("S2-Basin"@, config.basin@));
    if let Some(token) = config.auth_token {
        assert(headers[2] == ("Authorization"@, "Bearer "@ + token@));
    }
}

/// The contents of a request are its URL, its headers in order, and its timeout.
pub proof fn law_request_contents(request: StreamRequest)
    ensures
        request@.url == request.url@,
        request@.timeout_secs == request.timeout_secs,
        request@.headers.len() == request.headers@.len(),
        forall|i: int|
            0 <= i < request.headers@.len() ==> #[trigger] request@.headers[i] == (
                request.headers@[i].0@,
                request.headers@[i].1@,
            ),
{
}

/// What is to be done next for the stream.
#[derive(Debug, PartialEq, Eq)]
pub enum StreamStep {
    /// Decode this payload as a batch of records.
    Decode(Vec<u8>),
    /// Send this request.
    Open(StreamRequest),
    /// Read the next chunk of the response.
    Read,
}

/// What came of a read.
#[derive(Debug, PartialEq, Eq)]
pub enum Received {
    /// A chunk.
    Chunk,
    /// The end of the response.
    End,
}

/// The state of an event stream.
pub struct StreamState {
    pub config: S2InputConfig,
    /// The bytes received that no payload has been made of yet.
    pub buffered: Seq<u8>,
    /// Whether there is a response to read from.
    pub connected: bool,
}

impl StreamState {
    /// The state once a request has ended in `outcome`.
    pub open spec fn after_request(self, outcome: Result<u16, String>) -> StreamState {
        StreamState {
            connected: self.connected || (outcome matches Ok(status) && 200 <= status < 300),
            ..self
        }
    }

    /// The state once a read has ended in `item`.
    pub open spec fn after_read(self, item: Option<Result<Vec<u8>, String>>) -> StreamState {
        match item {
            Some(Ok(chunk)) => StreamState { buffered: self.buffered + chunk@, ..self },
            Some(Err(_)) => self,
            None => StreamState { connected: false, ..self },
        }
    }

    /// The state once the response has been given up.
    pub open spec fn after_disconnect(self) -> StreamState {
        StreamState { connected: false, ..self }
    }
}

/// An event stream of the service.
pub struct S2EventStream {
    config: Arc<S2InputConfig>,
    parser: SseParser,
    connected: bool,
}

impl View for S2EventStream {
    type V = StreamState;

    closed spec fn view(&self) -> StreamState {
        StreamState {
            config: *self.config,
            buffered: self.parser@,
            connected: self.connected,
        }
    }
}

/// What `S2EventStream::next_step` decides in `state`, and the state that it leaves.
pub open spec fn is_next_step(
    state: StreamState,
    seq_num: u64,
    step: StreamStep,
    after: StreamState,
) -> bool {
    let (payload, rest) = next_event(state.buffered);
    &&& after == StreamState { buffered: rest, ..state }
    &&& match payload {
        Some(payload) => step matches StreamStep::Decode(bytes) && bytes@ == payload,
        None => if state.connected {
            step is Read
        } else {
            step matches StreamStep::Open(request) && request@ == request_for(
                state.config,
                seq_num,
            )
        },
    }
}

/// A stream hands out the payloads that it has received, in order, before it asks for anything
/// else, and keeps what is left of its bytes.
pub proof fn law_payloads_come_first(
    state: StreamState,
    seq_num: u64,
    step: StreamStep,
    after: StreamState,
)
    requires
        is_next_step(state, seq_num, step, after),
    ensures
        match step {
            StreamStep::Decode(payload) => drain(state.buffered) == (
                seq![payload@] + drain(after.buffered).0,
                drain(after.buffered).1,
            ),
            _ => drain(state.buffered) == (Seq::<Seq<u8>>::empty(), after.buffered),
        },
{
}

/// A stream asks for nothing while it holds a payload. Otherwise it reads on where there is a
/// response, and where there is none it asks for the records from `seq_num` on. It stays connected
/// or not, as it was, and keeps its configuration.
pub proof fn law_next_step(
    state: StreamState,
    seq_num: u64,
    step: StreamStep,
    after: StreamState,
)
    requires
        is_next_step(state, seq_num, step, after),
    ensures
        after.config == state.config,
        after.connected == state.connected,
        after.buffered == next_event(state.buffered).1,
        next_event(state.buffered).0 matches Some(payload) ==> (step matches StreamStep::Decode(
            bytes,
        ) && bytes@ == payload),
        next_event(state.buffered).0 is None && state.connected ==> step is Read,
        next_event(state.buffered).0 is None && !state.connected ==> (
        step matches StreamStep::Open(request) && {
            &&& request.url@ == request_for(state.config, seq_num).url
            &&& request.timeout_secs == state.config.request_timeout_secs
            &&& request.headers@.len() == request_for(state.config, seq_num).headers.len()
            &&& forall|i: int|
                #![trigger request.headers@[i]]
                0 <= i < request.headers@.len() ==> (
                    request.headers@[i].0@,
                    request.headers@[i].1@,
                ) == request_for(state.config, seq_num).headers[i]
        }),
{
    if let StreamStep::Open(request) = step {
        assert forall|i: int|
            #![trigger request.headers@[i]]
            0 <= i < request.headers@.len() implies (
            request.headers@[i].0@,
            request.headers@[i].1@,
        ) == request@.headers[i] by {
            law_request_contents(request);
        }
    }
}

/// A response with a success status connects a stream, and nothing else does. The end of the
/// response and giving it up disconnect it, and nothing else does: an error while reading does not.
pub proof fn law_connection(
    state: StreamState,
    status: u16,
    error: String,
    item: Option<Result<Vec<u8>, String>>,
)
    ensures
        state.after_request(Ok(status)).connected <==> state.connected || 200 <= status <= 299,
        state.after_request(Err(error)).connected == state.connected,
        state.after_read(item).connected <==> state.connected && item is Some,
        !state.after_disconnect().connected,
{
}

/// Bytes that were received stay until a payload is made of them, whatever happens to the
/// connection, and a chunk goes behind them, whole. The configuration never changes.
pub proof fn law_bytes_are_kept(
    state: StreamState,
    outcome: Result<u16, String>,
    chunk: Vec<u8>,
    error: String,
)
    ensures
        state.after_request(outcome).buffered == state.buffered,
        state.after_disconnect().buffered == state.buffered,
        state.after_read(None).buffered == state.buffered,
        state.after_read(Some(Err(error))).buffered == state.buffered,
        state.after_read(Some(Ok(chunk))).buffered == state.buffered + chunk@,
        state.after_request(outcome).config == state.config,
        state.after_disconnect().config == state.config,
        state.after_read(None).config == state.config,
        state.after_read(Some(Err(error))).config == state.config,
        state.after_read(Some(Ok(chunk))).config == state.config,
{
}

/// After the end of the response, or once it has been given up, a stream that holds no payload asks
/// for the records from the number on that the reader then expects.
pub proof fn law_stream_connects_again(
    state: StreamState,
    seq_num: u64,
    step: StreamStep,
    after: StreamState,
)
    requires
        next_event(state.buffered).0 is None,
        is_next_step(state.after_read(None), seq_num, step, after) || is_next_step(
            state.after_disconnect(),
            seq_num,
            step,
            after,
        ),
    ensures
        step matches StreamStep::Open(request) && request@ == request_for(state.config, seq_num),
        !after.connected,
{
}

impl S2EventStream {
    /// A stream that is not open yet.
    pub fn new(config: Arc<S2InputConfig>) -> (res: Self)
        ensures
            res@ == (StreamState {
                config: *config,
                buffered: Seq::empty(),
                connected: false,
            }),
    {
        Self { config, parser: SseParser::new(), connected: false }
    }

    /// Gives up the response. Bytes that were received stay.
    pub fn disconnect(&mut self)
        ensures
            final(self)@ == (StreamState { connected: false, ..old(self)@ }),
            final(self)@ == old(self)@.after_disconnect(),
    {
        self.connected = false;
    }

    /// What is to be done next to get a batch: decode a payload, where one has been received, or
    /// else read on, from a new response that starts at `seq_num` where there is none.
    pub fn next_step(&mut self, seq_num: u64) -> (res: StreamStep)
        ensures
            is_next_step(old(self)@, seq_num, res, final(self)@),
    {
        if let Some(payload) = self.parser.next_event_payload() {
            return StreamStep::Decode(payload);
        }
        if self.connected {
            StreamStep::Read
        } else {
            StreamStep::Open(open_request(&self.config, seq_num))
        }
    }

    /// The batch that `payload` was decoded to, or the error for one that is no batch.
    pub fn decoded(payload: Vec<u8>, outcome: Result<S2ReadBatch, String>) -> (res: Result<
        S2ReadBatch,
        S2Error,
    >)
        ensures
            res == match outcome {
                Ok(batch) => Ok(batch),
                Err(error) => Err(S2Error::Decode { payload, error }),
            },
    {
        match outcome {
            Ok(batch) => Ok(batch),
            Err(error) => Err(S2Error::Decode { payload, error }),
        }
    }

    /// Takes in what came of a request: the status of the response, or why there is none. A
    /// success connects the stream.
    pub fn opened(&mut self, outcome: Result<u16, String>) -> (res: Result<(), S2Error>)
        requires
            outcome matches Ok(status) ==> 100 <= status <= 999,
        ensures
            match outcome {
                Ok(status) => if 200 <= status <= 299 {
                    &&& res is Ok
                    &&& final(self)@ == (StreamState { connected: true, ..old(self)@ })
                } else {
                    &&& res == Err::<(), S2Error>(S2Error::Status { status })
                    &&& final(self)@ == old(self)@
                },
                Err(error) => {
                    &&& res == Err::<(), S2Error>(S2Error::Request { error })
                    &&& final(self)@ == old(self)@
                },
            },
            final(self)@ == old(self)@.after_request(outcome),
            res is Ok ==> final(self)@.connected,
            res matches Err(error) ==> error.wf(),
    {
        match outcome {
            Ok(status) => {
                if status < 200 || status > 299 {
                    return Err(S2Error::Status { status });
                }
                self.connected = true;
                Ok(())
            },
            Err(error) => Err(S2Error::Request { error }),
        }
    }

    /// Takes in what came of a read: a chunk, the end of the response (`None`), or why nothing
    /// could be read.
    pub fn received(&mut self, item: Option<Result<Vec<u8>, String>>) -> (res: Result<
        Received,
        S2Error,
    >)
        ensures
            match item {
                Some(Ok(chunk)) => {
                    &&& res == Ok::<Received, S2Error>(Received::Chunk)
                    &&& final(self)@ == (StreamState {
                        buffered: old(self)@.buffered + chunk@,
                        ..old(self)@
                    })
                },
                Some(Err(error)) => {
                    &&& res == Err::<Received, S2Error>(S2Error::Read { error })
                    &&& final(self)@ == old(self)@
                },
                None => {
                    &&& res == Ok::<Received, S2Error>(Received::End)
                    &&& final(self)@ == (StreamState { connected: false, ..old(self)@ })
                },
            },
            final(self)@ == old(self)@.after_read(item),
    {
        match item {
            Some(Ok(chunk)) => {
                self.parser.push(&chunk);
                Ok(Received::Chunk)
            },
            Some(Err(error)) => Err(S2Error::Read { error }),
            None => {
                self.connected = false;
                Ok(Received::End)
            },
        }
    }
}

} // verus!
