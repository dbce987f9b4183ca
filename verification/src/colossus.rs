//! The event stream consumer: what to do with each message that the remote
//! service pushes, and when a connection's receive loop ends.

use vstd::prelude::*;
use crate::json::{
    json_at, json_parse, json_shape_at, optional_text, take_optional_text, text_view, JsonProbe,
    JsonShape,
};
use crate::routes::Channel;
use crate::text::{chars_of, contains, occurs_at_exec, str_contains, str_eq};

verus! {

/// The sink a log text is meant for.
#[derive(Debug, Clone, Copy, PartialEq, Eq, Structural)]
pub enum Severity {
    Info,
    Warn,
    Error,
    Debug,
    Trace,
}

/// One message received on one channel.
#[derive(Debug, Clone)]
pub struct RemoteEvent {
    pub channel: Channel,
    pub raw_data: String,
}

/// The members of a message that the consumer reads.
#[derive(Debug, Clone)]
pub struct EventPayload {
    pub level: Option<String>,
    pub body_level: Option<String>,
    pub message: Option<String>,
    pub msg: Option<String>,
}

/// `EventPayload` as contracts see it.
pub struct PayloadView {
    pub level: Option<Seq<char>>,
    pub body_level: Option<Seq<char>>,
    pub message: Option<Seq<char>>,
    pub msg: Option<Seq<char>>,
}

impl View for EventPayload {
    type V = PayloadView;

    open spec fn view(&self) -> PayloadView {
        PayloadView {
            level: text_view(self.level),
            body_level: text_view(self.body_level),
            message: text_view(self.message),
            msg: text_view(self.msg),
        }
    }
}

/// What the consumer's owner has to do about a message.
#[derive(Debug, Clone)]
pub enum StreamAction {
    /// Nothing: a keep-alive, or a message without text.
    Ignore,
    /// The remote side dropped the subscription; this connection is over.
    LinkInterrupted,
    /// The remote side has no snapshot: send the whole project again.
    FullSync,
    /// The remote side reports an error, with its message.
    RemoteError(String),
    /// A text for one of the log sinks.
    Log(Severity, String),
    /// The message could not be read; the stream goes on.
    ParseError,
}

/// `StreamAction` as contracts see it.
pub enum ActionView {
    Ignore,
    LinkInterrupted,
    FullSync,
    RemoteError(Seq<char>),
    Log(Severity, Seq<char>),
    ParseError,
}

impl View for StreamAction {
    type V = ActionView;

    open spec fn view(&self) -> ActionView {
        match self {
            StreamAction::Ignore => ActionView::Ignore,
            StreamAction::LinkInterrupted => ActionView::LinkInterrupted,
            StreamAction::FullSync => ActionView::FullSync,
            StreamAction::RemoteError(m) => ActionView::RemoteError(m@),
            StreamAction::Log(s, m) => ActionView::Log(*s, m@),
            StreamAction::ParseError => ActionView::ParseError,
        }
    }
}

/// The view of an optional payload.
pub open spec fn payload_view(p: Option<EventPayload>) -> Option<PayloadView> {
    match p {
        Some(p) => Some(p@),
        None => None,
    }
}

/// A message body without the line end that the transport appends.
pub open spec fn payload_text(data: Seq<char>) -> Seq<char> {
    if data.len() > 0 && data.last() == '\n' {
        data.drop_last()
    } else {
        data
    }
}

/// Debug and trace texts that open with a bracket belong to the trace sink,
/// the others to the debug sink.
pub open spec fn debug_sink(message: Seq<char>) -> Severity {
    if message.len() > 0 && message[0] == '[' {
        Severity::Trace
    } else {
        Severity::Debug
    }
}

/// The outer level if given, else the body's, else `info`.
pub open spec fn effective_level(p: PayloadView) -> Seq<char> {
    match p.level {
        Some(l) => l,
        None => match p.body_level {
            Some(l) => l,
            None => "info"@,
        },
    }
}

/// The body's `message` if given, else its `msg`.
pub open spec fn effective_text(p: PayloadView) -> Option<Seq<char>> {
    match p.message {
        Some(m) => Some(m),
        None => p.msg,
    }
}

/// Where a readable log message goes. An unknown level sends the raw data to
/// the trace sink; a known level without text is dropped.
pub open spec fn log_action(data: Seq<char>, p: PayloadView) -> ActionView {
    let level = effective_level(p);
    let known = level == "info"@ || level == "warning"@ || level == "error"@ || level == "debug"@
        || level == "trace"@;
    if !known {
        ActionView::Log(Severity::Trace, data)
    } else {
        match effective_text(p) {
            None => ActionView::Ignore,
            Some(m) => if level == "info"@ {
                ActionView::Log(Severity::Info, m)
            } else if level == "warning"@ {
                ActionView::Log(Severity::Warn, m)
            } else if level == "error"@ {
                ActionView::Log(Severity::Error, m)
            } else {
                ActionView::Log(debug_sink(m), m)
            },
        }
    }
}

/// The payload that a document's members make up, if they make one up: the
/// body has to be an object, and each of the four texts a string, `null` or
/// absent.
pub open spec fn payload_from(
    body: JsonShape,
    level: JsonShape,
    body_level: JsonShape,
    message: JsonShape,
    msg: JsonShape,
) -> Option<PayloadView> {
    if body is Object && optional_text(level) is Some && optional_text(body_level) is Some
        && optional_text(message) is Some && optional_text(msg) is Some {
        Some(
            PayloadView {
                level: optional_text(level)->0,
                body_level: optional_text(body_level)->0,
                message: optional_text(message)->0,
                msg: optional_text(msg)->0,
            },
        )
    } else {
        None
    }
}

/// The payload that the message `data` holds, if it holds one.
pub open spec fn decoded(data: Seq<char>) -> Option<PayloadView> {
    payload_from(
        json_shape_at(data, "/body"@),
        json_shape_at(data, "/level"@),
        json_shape_at(data, "/body/level"@),
        json_shape_at(data, "/body/message"@),
        json_shape_at(data, "/body/msg"@),
    )
}

/// The action for a message, given what decoding it gives. The rules apply
/// in this order: keep-alive, interrupted link, full sync wanted, remote
/// error, log text.
pub open spec fn classified(data: Seq<char>, parsed: Option<PayloadView>) -> ActionView {
    if payload_text(data) == "ping"@ {
        ActionView::Ignore
    } else if payload_text(data) == "link_interrupted"@ {
        ActionView::LinkInterrupted
    } else if contains(data, "initial_link_required"@) {
        ActionView::FullSync
    } else if contains(data, "generic_error"@) {
        match parsed {
            Some(p) => match p.message {
                Some(m) => ActionView::RemoteError(m),
                None => ActionView::ParseError,
            },
            None => ActionView::ParseError,
        }
    } else {
        match parsed {
            Some(p) => log_action(data, p),
            None => ActionView::ParseError,
        }
    }
}

/// The sink for a debug or trace text.
pub fn categorize_debug_level(message: &str) -> (r: Severity)
    ensures
        r == debug_sink(message@),
{
    let chars = chars_of(message);
    if chars.len() > 0 && chars[0] == '[' {
        Severity::Trace
    } else {
        Severity::Debug
    }
}

/// Builds a payload from the five places of a document that hold it.
pub fn assemble_payload(
    body: JsonProbe,
    level: JsonProbe,
    body_level: JsonProbe,
    message: JsonProbe,
    msg: JsonProbe,
) -> (r: Option<EventPayload>)
    ensures
        payload_view(r) == payload_from(body@, level@, body_level@, message@, msg@),
{
    match body {
        JsonProbe::Object => {},
        _ => {
            return None;
        },
    }
    let level = match take_optional_text(level) {
        Some(v) => v,
        None => {
            return None;
        },
    };
    let body_level = match take_optional_text(body_level) {
        Some(v) => v,
        None => {
            return None;
        },
    };
    let message = match take_optional_text(message) {
        Some(v) => v,
        None => {
            return None;
        },
    };
    let msg = match take_optional_text(msg) {
        Some(v) => v,
        None => {
            return None;
        },
    };
    Some(EventPayload { level, body_level, message, msg })
}

/// Reads the payload out of a message.
pub fn decode_event(data: &str) -> (r: Option<EventPayload>)
    ensures
        payload_view(r) == decoded(data@),
{
    let doc = match json_parse(data) {
        Ok(doc) => doc,
        Err(_) => {
            return None;
        },
    };
    let body = json_at(&doc, "/body");
    let level = json_at(&doc, "/level");
    let body_level = json_at(&doc, "/body/level");
    let message = json_at(&doc, "/body/message");
    let msg = json_at(&doc, "/body/msg");
    assemble_payload(body, level, body_level, message, msg)
}

/// Where a readable log message goes.
pub fn match_event(data: &str, payload: EventPayload) -> (r: StreamAction)
    ensures
        r@ == log_action(data@, payload@),
{
    let EventPayload { level, body_level, message, msg } = payload;
    let level: String = match level {
        Some(l) => l,
        None => match body_level {
            Some(l) => l,
            None => String::from_str("info"),
        },
    };
    assert(level@ == effective_level(payload@));
    let text: Option<String> = match message {
        Some(m) => Some(m),
        None => msg,
    };
    assert(text_view(text) == effective_text(payload@));
    let is_info = str_eq(level.as_str(), "info");
    let is_warning = str_eq(level.as_str(), "warning");
    let is_error = str_eq(level.as_str(), "error");
    let is_debug = str_eq(level.as_str(), "debug") || str_eq(level.as_str(), "trace");
    if !(is_info || is_warning || is_error || is_debug) {
        return StreamAction::Log(Severity::Trace, String::from_str(data));
    }
    match text {
        None => StreamAction::Ignore,
        Some(m) => {
            if is_info {
                StreamAction::Log(Severity::Info, m)
            } else if is_warning {
                StreamAction::Log(Severity::Warn, m)
            } else if is_error {
                StreamAction::Log(Severity::Error, m)
            } else {
                let sink = categorize_debug_level(m.as_str());
                StreamAction::Log(sink, m)
            }
        },
    }
}

/// Whether `data`, without the line end the transport appends, is `word`.
pub fn is_signal(data: &str, word: &str) -> (r: bool)
    ensures
        r == (payload_text(data@) == word@),
{
    let d = chars_of(data);
    let w = chars_of(word);
    let n = d.len();
    let m = if n > 0 && d[n - 1] == '\n' {
        n - 1
    } else {
        n
    };
    proof {
        assert(payload_text(d@) == d@.subrange(0, m as int));
    }
    if m != w.len() {
        return false;
    }
    let r = occurs_at_exec(&d, &w, 0);
    r
}

/// The action for a message, given what decoding it gave.
pub fn classify_decoded(data: &str, parsed: Option<EventPayload>) -> (r: StreamAction)
    ensures
        r@ == classified(data@, payload_view(parsed)),
{
    if is_signal(data, "ping") {
        StreamAction::Ignore
    } else if is_signal(data, "link_interrupted") {
        StreamAction::LinkInterrupted
    } else if str_contains(data, "initial_link_required") {
        StreamAction::FullSync
    } else if str_contains(data, "generic_error") {
        match parsed {
            Some(p) => match p.message {
                Some(m) => StreamAction::RemoteError(m),
                None => StreamAction::ParseError,
            },
            None => StreamAction::ParseError,
        }
    } else {
        match parsed {
            Some(p) => match_event(data, p),
            None => StreamAction::ParseError,
        }
    }
}

/// The action for a message.
pub fn classify(data: &str) -> (r: StreamAction)
    ensures
        r@ == classified(data@, decoded(data@)),
{
    let parsed = decode_event(data);
    classify_decoded(data, parsed)
}

/// Whether one connection's receive loop is still running.
#[derive(Debug, Clone, Copy, PartialEq, Eq, Structural)]
pub enum StreamState {
    Open,
    Closed,
}

/// The state of a connection after an action: only an interrupted link ends
/// the loop.
pub open spec fn state_after(state: StreamState, action: ActionView) -> StreamState {
    if action is LinkInterrupted {
        StreamState::Closed
    } else {
        state
    }
}

/// The three connections of a consumer.
#[derive(Debug, Clone, Copy, PartialEq, Eq, Structural)]
pub struct Consumer {
    pub build: StreamState,
    pub status: StreamState,
    pub logs: StreamState,
}

impl Consumer {
    /// The state of the connection for `channel`.
    pub open spec fn state_of(self, channel: Channel) -> StreamState {
        match channel {
            Channel::Build => self.build,
            Channel::Status => self.status,
            Channel::Logs => self.logs,
        }
    }

    /// A consumer with all three connections open.
    pub fn new() -> (r: Consumer)
        ensures
            forall|c: Channel| r.state_of(c) == StreamState::Open,
    {
        Consumer { build: StreamState::Open, status: StreamState::Open, logs: StreamState::Open }
    }

    /// The state of the connection for `channel`.
    pub fn state(&self, channel: Channel) -> (r: StreamState)
        ensures
            r == self.state_of(channel),
    {
        match channel {
            Channel::Build => self.build,
            Channel::Status => self.status,
            Channel::Logs => self.logs,
        }
    }

    /// Takes one message in. On a closed connection nothing happens. On an
    /// open one the message is classified, and the connection closes if the
    /// link was interrupted. The other two connections are left as they are.
    pub fn receive(&mut self, event: &RemoteEvent) -> (action: StreamAction)
        ensures
            old(self).state_of(event.channel) == StreamState::Closed ==> action@ == ActionView::Ignore
                && *final(self) == *old(self),
            old(self).state_of(event.channel) == StreamState::Open ==> action@ == classified(
                event.raw_data@,
                decoded(event.raw_data@),
            ) && final(self).state_of(event.channel) == state_after(StreamState::Open, action@),
            forall|c: Channel|
                c != event.channel ==> final(self).state_of(c) == old(self).state_of(c),
    {
        let open = match self.state(event.channel) {
            StreamState::Open => true,
            StreamState::Closed => false,
        };
        if !open {
            return StreamAction::Ignore;
        }
        let action = classify(event.raw_data.as_str());
        let interrupted = match action {
            StreamAction::LinkInterrupted => true,
            _ => false,
        };
        if interrupted {
            match event.channel {
                Channel::Build => {
                    self.build = StreamState::Closed;
                },
                Channel::Status => {
                    self.status = StreamState::Closed;
                },
                Channel::Logs => {
                    self.logs = StreamState::Closed;
                },
            }
        }
        action
    }
}

/// A message that cannot be read never ends a connection.
pub proof fn lemma_parse_error_keeps_stream(state: StreamState)
    ensures
        state_after(state, ActionView::ParseError) == state,
{
}

/// A keep-alive is never dispatched, whatever decoding it would give.
pub proof fn lemma_ping_is_ignored(parsed: Option<PayloadView>)
    ensures
        classified("ping\n"@, parsed) == ActionView::Ignore,
{
    reveal_strlit("ping\n");
    reveal_strlit("ping");
    assert(payload_text("ping\n"@) =~= "ping"@);
}

/// A message that cannot be decoded and carries no signal word is reported
/// as a parse error.
pub proof fn lemma_undecodable_is_parse_error(data: Seq<char>)
    requires
        payload_text(data) != "ping"@,
        payload_text(data) != "link_interrupted"@,
        !contains(data, "initial_link_required"@),
    ensures
        classified(data, None) == ActionView::ParseError,
{
}

} // verus!
