//! One connection of the benchmark client.
//!
//! A connection is set up, then sends one request after another, each for a
//! random number and each after the answer to the one before, until its time is
//! up or something fails. The caller carries out each action and reports its
//! outcome.

use crate::interval::Interval;
use crate::connection;
use crate::request;
use crate::shard;
use crate::text;
use rand::Rng;
use vstd::prelude::*;
use vstd::string::*;
use vstd::utf8::*;

verus! {

/// The smallest number that the client asks for.
pub const MIN_INPUT: u64 = 1;

/// The greatest number that the client asks for.
pub const MAX_INPUT: u64 = 1000;

/// How many bytes of an answer the client reads at a time.
pub const RESPONSE_BUFFER_SIZE: usize = 4096;

/// How many bytes of an answer are shown.
pub const PREVIEW_SIZE: usize = 100;

/// Every how many requests an answer is shown.
pub const PREVIEW_PERIOD: u64 = 1000;

/// Calls `rand::Rng::gen_range` on `rand::thread_rng()`: a number in the given
/// range, both ends included. Which one depends on chance.
#[verifier::external_body]
fn random_between(low: u64, high: u64) -> (number: u64)
    requires
        low <= high,
    ensures
        low <= number <= high,
{
    rand::thread_rng().gen_range(low..=high)
}

/// Asks `source` for a number in the given range.
fn draw_from<F: Fn(u64, u64) -> u64>(source: F, low: u64, high: u64) -> (number: u64)
    requires
        call_requires(source, (low, high)),
    ensures
        call_ensures(source, (low, high), number),
{
    source(low, high)
}

/// Drawing a random number to ask for can have this outcome.
pub closed spec fn drawn(input: u64) -> bool {
    call_ensures(random_between, (MIN_INPUT, MAX_INPUT), input)
}

/// A random number to ask for.
pub fn draw_input() -> (input: u64)
    ensures
        MIN_INPUT <= input <= MAX_INPUT,
        drawn(input),
{
    draw_from(random_between, MIN_INPUT, MAX_INPUT)
}

/// What counts as drawn is what the random numbers between one and a thousand
/// give, and nothing else.
proof fn lemma_drawn_at_random(input: u64)
    ensures
        drawn(input) <==> call_ensures(random_between, (1u64, 1000u64), input),
{
}

/// What a connection waits for.
#[derive(Clone, Copy)]
pub enum ClientState {
    /// The connection to be made.
    Connecting,
    /// The limit on reading to be set.
    SettingReadTimeout,
    /// The limit on writing to be set.
    SettingWriteTimeout,
    /// The delay of small packets to be switched off.
    SettingNoDelay,
    /// The time since the connection was set up.
    CheckingClock,
    /// The number to ask for.
    DrawingInput,
    /// The request to be written.
    Sending { input: u64 },
    /// The answer.
    Receiving { input: u64 },
    /// Nothing: the connection ended once it was set up.
    Finished,
    /// Nothing: the connection could not be set up.
    Aborted,
}

/// The outcome of an action.
pub enum ClientEvent {
    /// The action succeeded.
    Done,
    /// The action failed, for the given reason.
    Failed(String),
    /// So much time has passed since the connection was set up.
    Clock(Interval),
    /// The number to ask for, between `MIN_INPUT` and `MAX_INPUT`.
    Drawn(u64),
    /// The bytes of an answer, none at the end of the stream, and the time
    /// since the request was begun.
    Received { response: Vec<u8>, took: Interval },
}

/// What to do next with a connection.
pub enum ClientAction {
    /// Connect to the server.
    Connect,
    /// Limit the time that reading may take.
    SetReadTimeout,
    /// Limit the time that writing may take.
    SetWriteTimeout,
    /// Send small packets without delay.
    SetNoDelay,
    /// Look at the clock.
    CheckClock,
    /// Draw a number.
    DrawInput,
    /// Write a request.
    Send(String),
    /// Read an answer.
    Receive,
    /// Report how many requests there were, and end.
    Finish,
    /// End.
    Abort,
}

/// What to do next, and what to tell before.
pub struct ClientStep {
    /// What to do next.
    pub action: ClientAction,
    /// A line for the error output.
    pub complaint: Option<String>,
    /// A line for the output.
    pub notice: Option<String>,
    /// The length of a request to add to the statistics.
    pub record: Option<Interval>,
}

/// The characters of a text, if there is one.
pub open spec fn text_of(text: Option<String>) -> Option<Seq<char>> {
    match text {
        Some(text) => Some(text@),
        None => None,
    }
}

/// A line about the connection with the given number.
pub open spec fn line_about(connection_id: usize, rest: Seq<char>) -> Seq<char> {
    "Connection "@ + text::decimal(connection_id as nat) + ": "@ + rest
}

/// What is shown of an answer: its first bytes as text, without the white space
/// around it.
pub open spec fn preview_of(response: Seq<u8>) -> Seq<char> {
    text::trimmed(
        text::lossy_utf8(
            if response.len() <= PREVIEW_SIZE {
                response
            } else {
                response.take(PREVIEW_SIZE as int)
            },
        ),
    )
}

/// The outcome is one of the action that a connection in this state waits for.
pub open spec fn awaited(state: ClientState, event: ClientEvent) -> bool {
    match state {
        ClientState::Connecting => event is Done || event is Failed,
        ClientState::SettingReadTimeout => event is Done || event is Failed,
        ClientState::SettingWriteTimeout => event is Done || event is Failed,
        ClientState::SettingNoDelay => event is Done || event is Failed,
        ClientState::CheckingClock => event is Clock,
        ClientState::DrawingInput => event matches ClientEvent::Drawn(input) && MIN_INPUT <= input
            <= MAX_INPUT,
        ClientState::Sending { .. } => event is Done || event is Failed,
        ClientState::Receiving { .. } => event is Received || event is Failed,
        ClientState::Finished => false,
        ClientState::Aborted => false,
    }
}

/// The outcome is an answer with something in it.
pub open spec fn is_answer(event: ClientEvent) -> bool {
    event matches ClientEvent::Received { response, .. } && response@.len() > 0
}

/// What a connection that may last `max_duration` waits for after an outcome
/// that it waited for.
pub open spec fn state_after(
    max_duration: Interval,
    state: ClientState,
    event: ClientEvent,
) -> ClientState {
    match (state, event) {
        (ClientState::Connecting, ClientEvent::Done) => ClientState::SettingReadTimeout,
        (ClientState::SettingReadTimeout, ClientEvent::Done) => ClientState::SettingWriteTimeout,
        (ClientState::SettingWriteTimeout, ClientEvent::Done) => ClientState::SettingNoDelay,
        (ClientState::Connecting, _) => ClientState::Aborted,
        (ClientState::SettingReadTimeout, _) => ClientState::Aborted,
        (ClientState::SettingWriteTimeout, _) => ClientState::Aborted,
        (ClientState::SettingNoDelay, _) => ClientState::CheckingClock,
        (ClientState::CheckingClock, ClientEvent::Clock(elapsed)) if elapsed@ < max_duration@ =>
            ClientState::DrawingInput,
        (ClientState::DrawingInput, ClientEvent::Drawn(input)) => ClientState::Sending { input },
        (ClientState::Sending { input }, ClientEvent::Done) => ClientState::Receiving { input },
        (ClientState::Receiving { .. }, _) if is_answer(event) => ClientState::CheckingClock,
        (ClientState::Aborted, _) => ClientState::Aborted,
        _ => ClientState::Finished,
    }
}

/// What a connection complains of after an outcome.
pub open spec fn complaint_after(
    connection_id: usize,
    state: ClientState,
    event: ClientEvent,
) -> Option<Seq<char>> {
    match event {
        ClientEvent::Failed(reason) => Some(
            line_about(
                connection_id,
                (match state {
                    ClientState::Connecting => "Failed to connect: "@,
                    ClientState::SettingReadTimeout => "Failed to set read timeout: "@,
                    ClientState::SettingWriteTimeout => "Failed to set write timeout: "@,
                    ClientState::SettingNoDelay => "Failed to set nodelay: "@,
                    ClientState::Sending { .. } => "Failed to send request: "@,
                    _ => "Failed to read response: "@,
                }) + reason@,
            ),
        ),
        _ => None,
    }
}

/// What a connection tells after an outcome, with `answers` answers before it.
pub open spec fn notice_after(
    connection_id: usize,
    answers: u64,
    state: ClientState,
    event: ClientEvent,
) -> Option<Seq<char>> {
    match (state, event) {
        (ClientState::SettingNoDelay, _) => Some(
            line_about(connection_id, "Connected, starting requests"@),
        ),
        (ClientState::Receiving { input }, ClientEvent::Received { response, .. }) => {
            if response@.len() == 0 {
                Some(
                    line_about(
                        connection_id,
                        "Server closed connection after "@ + text::decimal(answers as nat)
                            + " requests"@,
                    ),
                )
            } else if (answers + 1) % PREVIEW_PERIOD as int == 0 {
                Some(
                    line_about(
                        connection_id,
                        "Request "@ + text::decimal((answers + 1) as nat) + ", Input: "@
                            + text::decimal(input as nat) + ", Response preview: "@ + preview_of(
                            response@,
                        ),
                    ),
                )
            } else {
                None
            }
        },
        _ => None,
    }
}

/// The length of the request that an outcome completes.
pub open spec fn record_after(event: ClientEvent) -> Option<Interval> {
    match event {
        ClientEvent::Received { response, took } if response@.len() > 0 => Some(took),
        _ => None,
    }
}

/// This is the action whose outcome a connection in this state waits for.
pub open spec fn action_for(state: ClientState, action: ClientAction) -> bool {
    match state {
        ClientState::Connecting => action is Connect,
        ClientState::SettingReadTimeout => action is SetReadTimeout,
        ClientState::SettingWriteTimeout => action is SetWriteTimeout,
        ClientState::SettingNoDelay => action is SetNoDelay,
        ClientState::CheckingClock => action is CheckClock,
        ClientState::DrawingInput => action is DrawInput,
        ClientState::Sending { input } => action matches ClientAction::Send(line) && line@
            == request::request_text(input),
        ClientState::Receiving { .. } => action is Receive,
        ClientState::Finished => action is Finish,
        ClientState::Aborted => action is Abort,
    }
}

/// Starts a line about a connection.
fn start_line(connection_id: usize, start: &str) -> (line: String)
    ensures
        line@ == line_about(connection_id, start@),
{
    let mut line = String::new();
    line.append("Connection ");
    text::append_decimal(&mut line, connection_id as u64);
    line.append(": ");
    line.append(start);
    line
}

/// A complaint of a connection, with its reason.
fn complain(connection_id: usize, start: &str, reason: &String) -> (line: Option<String>)
    ensures
        text_of(line) == Some(line_about(connection_id, start@ + reason@)),
{
    let mut line = start_line(connection_id, start);
    line.append(reason.as_str());
    assert(line@ == line_about(connection_id, start@ + reason@));
    Some(line)
}

/// What is shown of an answer.
pub fn preview(response: &[u8]) -> (shown: String)
    ensures
        shown@ == preview_of(response@),
{
    let text = if response.len() <= PREVIEW_SIZE {
        text::lossy_text(response)
    } else {
        text::lossy_text(vstd::slice::slice_subrange(response, 0, PREVIEW_SIZE))
    };
    text::trim(text.as_str())
}

/// A connection of the client.
pub struct ClientConnection {
    connection_id: usize,
    max_duration: Interval,
    request_count: u64,
    state: ClientState,
}

impl ClientConnection {
    /// The number of the connection.
    pub closed spec fn id(self) -> usize {
        self.connection_id
    }

    /// How long the connection may last.
    pub closed spec fn limit(self) -> Interval {
        self.max_duration
    }

    /// How many requests were answered.
    pub closed spec fn answers(self) -> u64 {
        self.request_count
    }

    /// What the connection waits for.
    pub closed spec fn phase(self) -> ClientState {
        self.state
    }

    /// The connection waits for this outcome and can count it.
    pub open spec fn ready_for(self, event: ClientEvent) -> bool {
        &&& awaited(self.phase(), event)
        &&& is_answer(event) ==> self.answers() < u64::MAX
    }

    /// Starts with a connection that is still to be made and may then last
    /// `max_duration`.
    pub fn start(connection_id: usize, max_duration: Interval) -> (start: (
        ClientConnection,
        ClientAction,
    ))
        ensures
            start.0.id() == connection_id,
            start.0.limit() == max_duration,
            start.0.answers() == 0,
            start.0.phase() is Connecting,
            start.1 is Connect,
    {
        let connection = ClientConnection {
            connection_id,
            max_duration,
            request_count: 0,
            state: ClientState::Connecting,
        };
        (connection, ClientAction::Connect)
    }

    /// How many requests were answered.
    pub fn request_count(&self) -> (count: u64)
        ensures
            count == self.answers(),
    {
        self.request_count
    }

    /// Whether the connection waits for this outcome and can count it.
    pub fn awaits(&self, event: &ClientEvent) -> (yes: bool)
        ensures
            yes == self.ready_for(*event),
    {
        match (self.state, event) {
            (ClientState::Connecting, ClientEvent::Done) => true,
            (ClientState::Connecting, ClientEvent::Failed(_)) => true,
            (ClientState::SettingReadTimeout, ClientEvent::Done) => true,
            (ClientState::SettingReadTimeout, ClientEvent::Failed(_)) => true,
            (ClientState::SettingWriteTimeout, ClientEvent::Done) => true,
            (ClientState::SettingWriteTimeout, ClientEvent::Failed(_)) => true,
            (ClientState::SettingNoDelay, ClientEvent::Done) => true,
            (ClientState::SettingNoDelay, ClientEvent::Failed(_)) => true,
            (ClientState::CheckingClock, ClientEvent::Clock(_)) => true,
            (ClientState::DrawingInput, ClientEvent::Drawn(input)) => {
                MIN_INPUT <= *input && *input <= MAX_INPUT
            },
            (ClientState::Sending { .. }, ClientEvent::Done) => true,
            (ClientState::Sending { .. }, ClientEvent::Failed(_)) => true,
            (ClientState::Receiving { .. }, ClientEvent::Failed(_)) => true,
            (ClientState::Receiving { .. }, ClientEvent::Received { response, .. }) => {
                response.len() == 0 || self.request_count < u64::MAX
            },
            _ => false,
        }
    }

    /// Takes in the outcome of the last action and says what to do next.
    pub fn advance(&mut self, event: ClientEvent) -> (step: ClientStep)
        requires
            old(self).ready_for(event),
        ensures
            final(self).id() == old(self).id(),
            final(self).limit() == old(self).limit(),
            final(self).answers() == old(self).answers() + (if is_answer(event) {
                1int
            } else {
                0int
            }),
            final(self).phase() == state_after(old(self).limit(), old(self).phase(), event),
            action_for(final(self).phase(), step.action),
            text_of(step.complaint) == complaint_after(old(self).id(), old(self).phase(), event),
            text_of(step.notice) == notice_after(
                old(self).id(),
                old(self).answers(),
                old(self).phase(),
                event,
            ),
            step.record == record_after(event),
    {
        let id: usize = self.connection_id;
        match (self.state, event) {
            (ClientState::Connecting, ClientEvent::Done) => self.go(
                ClientState::SettingReadTimeout,
                ClientAction::SetReadTimeout,
            ),
            (ClientState::SettingReadTimeout, ClientEvent::Done) => self.go(
                ClientState::SettingWriteTimeout,
                ClientAction::SetWriteTimeout,
            ),
            (ClientState::SettingWriteTimeout, ClientEvent::Done) => self.go(
                ClientState::SettingNoDelay,
                ClientAction::SetNoDelay,
            ),
            (ClientState::SettingNoDelay, ClientEvent::Done) => {
                let mut step = self.go(ClientState::CheckingClock, ClientAction::CheckClock);
                step.notice = Some(start_line(id, "Connected, starting requests"));
                step
            },
            (ClientState::Connecting, ClientEvent::Failed(reason)) => {
                let mut step = self.go(ClientState::Aborted, ClientAction::Abort);
                step.complaint = complain(id, "Failed to connect: ", &reason);
                step
            },
            (ClientState::SettingReadTimeout, ClientEvent::Failed(reason)) => {
                let mut step = self.go(ClientState::Aborted, ClientAction::Abort);
                step.complaint = complain(id, "Failed to set read timeout: ", &reason);
                step
            },
            (ClientState::SettingWriteTimeout, ClientEvent::Failed(reason)) => {
                let mut step = self.go(ClientState::Aborted, ClientAction::Abort);
                step.complaint = complain(id, "Failed to set write timeout: ", &reason);
                step
            },
            (ClientState::SettingNoDelay, ClientEvent::Failed(reason)) => {
                let mut step = self.go(ClientState::CheckingClock, ClientAction::CheckClock);
                step.complaint = complain(id, "Failed to set nodelay: ", &reason);
                step.notice = Some(start_line(id, "Connected, starting requests"));
                step
            },
            (ClientState::CheckingClock, ClientEvent::Clock(elapsed)) => {
                if elapsed.at_least(&self.max_duration) {
                    self.go(ClientState::Finished, ClientAction::Finish)
                } else {
                    self.go(ClientState::DrawingInput, ClientAction::DrawInput)
                }
            },
            (ClientState::DrawingInput, ClientEvent::Drawn(input)) => self.go(
                ClientState::Sending { input },
                ClientAction::Send(request::request_line(input)),
            ),
            (ClientState::Sending { input }, ClientEvent::Done) => self.go(
                ClientState::Receiving { input },
                ClientAction::Receive,
            ),
            (ClientState::Sending { .. }, ClientEvent::Failed(reason)) => {
                let mut step = self.go(ClientState::Finished, ClientAction::Finish);
                step.complaint = complain(id, "Failed to send request: ", &reason);
                step
            },
            (ClientState::Receiving { input }, ClientEvent::Received { response, took }) => {
                if response.len() == 0 {
                    let mut line = start_line(id, "Server closed connection after ");
                    text::append_decimal(&mut line, self.request_count);
                    line.append(" requests");
                    assert(line@ == line_about(
                        id,
                        "Server closed connection after "@ + text::decimal(
                            self.request_count as nat,
                        ) + " requests"@,
                    ));
                    let mut step = self.go(ClientState::Finished, ClientAction::Finish);
                    step.notice = Some(line);
                    step
                } else {
                    self.request_count = self.request_count + 1;
                    let mut step = self.go(ClientState::CheckingClock, ClientAction::CheckClock);
                    step.record = Some(took);
                    if self.request_count % PREVIEW_PERIOD == 0 {
                        let shown = preview(response.as_slice());
                        let mut line = start_line(id, "Request ");
                        text::append_decimal(&mut line, self.request_count);
                        line.append(", Input: ");
                        text::append_decimal(&mut line, input);
                        line.append(", Response preview: ");
                        line.append(shown.as_str());
                        assert(line@ == line_about(
                            id,
                            "Request "@ + text::decimal(self.request_count as nat) + ", Input: "@
                                + text::decimal(input as nat) + ", Response preview: "@
                                + preview_of(response@),
                        ));
                        step.notice = Some(line);
                    }
                    step
                }
            },
            (_, ClientEvent::Failed(reason)) => {
                let mut step = self.go(ClientState::Finished, ClientAction::Finish);
                step.complaint = complain(id, "Failed to read response: ", &reason);
                step
            },
            // No other outcome is awaited.
            (_, _) => self.go(ClientState::Finished, ClientAction::Finish),
        }
    }

    /// Goes on to another state, with its action and nothing to tell.
    fn go(&mut self, state: ClientState, action: ClientAction) -> (step: ClientStep)
        ensures
            final(self).id() == old(self).id(),
            final(self).limit() == old(self).limit(),
            final(self).answers() == old(self).answers(),
            final(self).phase() == state,
            step == (ClientStep { action, complaint: None, notice: None, record: None }),
    {
        self.state = state;
        ClientStep { action, complaint: None, notice: None, record: None }
    }
}

/// Whatever number the client draws, the server reads that number from the
/// bytes of the request that the client then sends.
pub proof fn lemma_server_understands_client(input: u64, action: ClientAction)
    requires
        action_for(ClientState::Sending { input }, action),
    ensures
        action matches ClientAction::Send(line) && request::requested_number(encode_utf8(line@))
            == Some(input),
{
    request::lemma_request_round_trip(input);
}

/// Every request that the client sends asks for a number between the smallest and
/// the greatest one that it may ask for.
pub proof fn lemma_requests_stay_in_range(
    max_duration: Interval,
    state: ClientState,
    event: ClientEvent,
    action: ClientAction,
)
    requires
        awaited(state, event),
        action_for(state_after(max_duration, state, event), action),
        action is Send,
    ensures
        action matches ClientAction::Send(line) && exists|input: u64|
            MIN_INPUT <= input <= MAX_INPUT && line@ == #[trigger] request::request_text(input),
{
}

/// An answer of the server fits into one read of the client, and so does its
/// refusal.
pub proof fn lemma_reply_fits_one_read(shard: usize, value: u64, number: u64, cached: bool)
    ensures
        encode_utf8(shard::reply_text(shard, value, number, cached)).len() <= RESPONSE_BUFFER_SIZE,
        encode_utf8(connection::refusal_text()).len() <= RESPONSE_BUFFER_SIZE,
        RESPONSE_BUFFER_SIZE == 4096,
{
    reveal_strlit("Reply from shard ");
    reveal_strlit(": received value ");
    reveal_strlit(" and cached fibonacci ");
    reveal_strlit(" and fibonacci ");
    reveal_strlit("\n");
    reveal_strlit("Server is overwhelmed. Please try again later.\n");
    let numerals = seq![
        text::decimal(shard as nat),
        text::decimal(value as nat),
        text::decimal(number as nat),
    ];
    text::lemma_decimal_length(shard as u64);
    text::lemma_decimal_length(value);
    text::lemma_decimal_length(number);
    text::lemma_decimal_denotes(shard as nat);
    text::lemma_decimal_denotes(value as nat);
    text::lemma_decimal_denotes(number as nat);
    assert forall|k: int, i: int| 0 <= k < 3 && 0 <= i < numerals[k].len() implies '\0'
        <= #[trigger] numerals[k][i] <= '\u{7f}' by {
        assert(text::all_digits(numerals[k]));
        assert(text::is_digit(numerals[k][i]));
    }
    assert(numerals[0] == text::decimal(shard as nat));
    assert(numerals[1] == text::decimal(value as nat));
    assert(numerals[2] == text::decimal(number as nat));
    assert(is_ascii_chars(shard::reply_text(shard, value, number, cached)));
    is_ascii_chars_encode_utf8(shard::reply_text(shard, value, number, cached));
    assert(is_ascii_chars(connection::refusal_text()));
    is_ascii_chars_encode_utf8(connection::refusal_text());
}

/// As long as there is time left, a request that is drawn, sent and answered
/// leads to the next look at the clock.
pub proof fn lemma_request_leads_to_the_next(
    max_duration: Interval,
    elapsed: Interval,
    input: u64,
    answer: ClientEvent,
)
    requires
        elapsed@ < max_duration@,
        is_answer(answer),
    ensures
        ({
            let drawing = state_after(
                max_duration,
                ClientState::CheckingClock,
                ClientEvent::Clock(elapsed),
            );
            let sending = state_after(max_duration, drawing, ClientEvent::Drawn(input));
            let receiving = state_after(max_duration, sending, ClientEvent::Done);
            &&& sending == ClientState::Sending { input }
            &&& receiving == ClientState::Receiving { input }
            &&& state_after(max_duration, receiving, answer) is CheckingClock
        }),
{
}

/// No request is begun once the time is up.
pub proof fn lemma_no_request_after_the_end(max_duration: Interval, elapsed: Interval)
    requires
        elapsed@ >= max_duration@,
    ensures
        state_after(max_duration, ClientState::CheckingClock, ClientEvent::Clock(elapsed))
            is Finished,
{
}

/// A connection is given up without a single request only if it could not be
/// made or its time limits could not be set; that small packets are delayed is
/// no reason.
pub proof fn lemma_only_setup_aborts(
    max_duration: Interval,
    state: ClientState,
    event: ClientEvent,
)
    requires
        awaited(state, event),
    ensures
        state_after(max_duration, state, event) is Aborted <==> event is Failed && (
        state is Connecting || state is SettingReadTimeout || state is SettingWriteTimeout),
        state is SettingNoDelay ==> state_after(max_duration, state, event) is CheckingClock,
{
}

/// Exactly the answers go into the statistics.
pub proof fn lemma_every_answer_is_recorded(event: ClientEvent)
    ensures
        record_after(event) is Some <==> is_answer(event),
{
}

/// A connection that has ended takes no further part.
pub proof fn lemma_ended_connection_awaits_nothing(event: ClientEvent)
    ensures
        !awaited(ClientState::Finished, event),
        !awaited(ClientState::Aborted, event),
{
}

/// A line about a connection names it by its number and says the rest.
pub proof fn lemma_line_names_its_connection(connection_id: usize, rest: Seq<char>)
    ensures
        exists|digits: Seq<char>| #[trigger]
            text::all_digits(digits) && text::digits_value(digits) == connection_id && (digits.len()
                == 1 || digits[0] != '0') && line_about(connection_id, rest) == "Connection "@
                + digits + ": "@ + rest,
{
    text::lemma_decimal_denotes(connection_id as nat);
    text::lemma_numerals_are_unique(Seq::empty(), connection_id as nat);
    assert(text::all_digits(text::decimal(connection_id as nat)));
}

/// A connection complains of every failure and of nothing else, and says what
/// failed and why.
pub proof fn lemma_every_failure_is_told(
    connection_id: usize,
    state: ClientState,
    event: ClientEvent,
)
    requires
        awaited(state, event),
    ensures
        match event {
            ClientEvent::Failed(reason) => exists|what: Seq<char>|
                #![trigger line_about(connection_id, what)]
                complaint_after(connection_id, state, event) == Some(line_about(connection_id, what))
                    && what == (if state is Connecting {
                    "Failed to connect: "@
                } else if state is SettingReadTimeout {
                    "Failed to set read timeout: "@
                } else if state is SettingWriteTimeout {
                    "Failed to set write timeout: "@
                } else if state is SettingNoDelay {
                    "Failed to set nodelay: "@
                } else if state is Sending {
                    "Failed to send request: "@
                } else {
                    "Failed to read response: "@
                }) + reason@,
            _ => complaint_after(connection_id, state, event) is None,
        },
{
}

/// What a connection tells: that it is set up, that the server closed it and
/// after how many answers, and every thousandth answer, with the number of the
/// request, what was asked for and what came back. It tells nothing else.
pub proof fn lemma_what_is_told(
    connection_id: usize,
    answers: u64,
    state: ClientState,
    event: ClientEvent,
)
    requires
        awaited(state, event),
    ensures
        ({
            let told = notice_after(connection_id, answers, state, event);
            match event {
                ClientEvent::Received { response, .. } => {
                    &&& response@.len() == 0 ==> (exists|n: Seq<char>| #[trigger]
                        text::all_digits(n) && text::digits_value(n) == answers && (n.len() == 1
                            || n[0] != '0') && told == Some(
                            line_about(
                                connection_id,
                                "Server closed connection after "@ + n + " requests"@,
                            ),
                        ))
                    &&& response@.len() > 0 ==> (told is Some <==> (answers + 1) % 1000 == 0)
                    &&& response@.len() > 0 && (answers + 1) % 1000 == 0 ==> (exists|
                        n: Seq<char>,
                        i: Seq<char>,
                    |
                        #![trigger text::all_digits(n), text::all_digits(i)]
                        text::all_digits(n) && text::digits_value(n) == answers + 1
                            && text::all_digits(i) && (state matches ClientState::Receiving {
                            input,
                        } && text::digits_value(i) == input) && (n.len() == 1 || n[0] != '0') && (
                        i.len() == 1 || i[0] != '0') && told == Some(
                            line_about(
                                connection_id,
                                "Request "@ + n + ", Input: "@ + i + ", Response preview: "@
                                    + preview_of(response@),
                            ),
                        ))
                },
                _ => if state is SettingNoDelay {
                    told == Some(line_about(connection_id, "Connected, starting requests"@))
                } else {
                    told is None
                },
            }
        }),
{
    text::lemma_decimal_denotes(answers as nat);
    text::lemma_decimal_denotes((answers + 1) as nat);
    text::lemma_numerals_are_unique(Seq::empty(), answers as nat);
    text::lemma_numerals_are_unique(Seq::empty(), (answers + 1) as nat);
    assert(text::all_digits(text::decimal(answers as nat)));
    assert(text::all_digits(text::decimal((answers + 1) as nat)));
    if let ClientState::Receiving { input } = state {
        text::lemma_decimal_denotes(input as nat);
        text::lemma_numerals_are_unique(Seq::empty(), input as nat);
        assert(text::all_digits(text::decimal(input as nat)));
    }
}

/// A short answer is shown whole but for the white space around it, and of a long
/// one its first hundred bytes are shown in the same way.
pub proof fn lemma_what_is_shown(response: Seq<u8>, t: Seq<char>)
    ensures
        encode_utf8(t).len() <= 100 ==> preview_of(encode_utf8(t)) == text::trimmed(t),
        response.len() <= 100 && !valid_utf8(response) ==> preview_of(response) == text::trimmed(
            text::replaced_utf8(response),
        ),
        response.len() > 100 ==> preview_of(response) == preview_of(response.take(100)),
{
    text::lemma_bytes_as_text(t, response);
}

/// Every answer goes into the statistics with the time that it took, and nothing
/// else does.
pub proof fn lemma_what_is_recorded(response: Vec<u8>, took: Interval, event: ClientEvent)
    ensures
        record_after(ClientEvent::Received { response, took }) == (if response@.len() > 0 {
            Some(took)
        } else {
            None
        }),
        is_answer(ClientEvent::Received { response, took }) <==> response@.len() > 0,
        event !is Received ==> record_after(event) is None && !is_answer(event),
{
}

/// A connection is set up in order: it is made, then its limits on reading and on
/// writing are set, then the delay of small packets is switched off, and then its
/// time begins, even if that last step failed.
pub proof fn lemma_setup_in_order(max_duration: Interval, last: ClientEvent)
    ensures
        ({
            let done = ClientEvent::Done;
            let second = state_after(max_duration, ClientState::Connecting, done);
            let third = state_after(max_duration, second, done);
            let fourth = state_after(max_duration, third, done);
            &&& second is SettingReadTimeout
            &&& third is SettingWriteTimeout
            &&& fourth is SettingNoDelay
            &&& state_after(max_duration, fourth, last) is CheckingClock
        }),
{
}

/// A connection in use ends exactly if its time is up, if a request cannot be
/// sent, or if no answer comes to it.
pub proof fn lemma_when_a_connection_ends(
    max_duration: Interval,
    state: ClientState,
    event: ClientEvent,
)
    requires
        awaited(state, event),
    ensures
        state_after(max_duration, state, event) is Finished <==> match event {
            ClientEvent::Clock(elapsed) => elapsed@ >= max_duration@,
            ClientEvent::Failed(_) => state is Sending || state is Receiving,
            ClientEvent::Received { response, .. } => response@.len() == 0,
            _ => false,
        },
{
}

/// A number that was drawn is the one that is asked for, and the one whose answer
/// is then awaited.
pub proof fn lemma_drawn_number_is_asked_for(
    max_duration: Interval,
    input: u64,
    action: ClientAction,
)
    requires
        action_for(
            state_after(max_duration, ClientState::DrawingInput, ClientEvent::Drawn(input)),
            action,
        ),
    ensures
        action matches ClientAction::Send(line) && line@.last() == '\n' && text::all_digits(
            line@.drop_last(),
        ) && text::digits_value(line@.drop_last()) == input && (line@.len() == 2 || line@[0]
            != '0'),
        state_after(max_duration, ClientState::Sending { input }, ClientEvent::Done)
            == (ClientState::Receiving { input }),
{
    request::lemma_request_is_one_line(input);
}

/// Every action has outcomes, and a connection waits for each of them.
pub proof fn lemma_every_outcome_is_awaited(
    reason: String,
    elapsed: Interval,
    input: u64,
    response: Vec<u8>,
)
    ensures
        forall|state: ClientState|
            state is Connecting || state is SettingReadTimeout || state is SettingWriteTimeout
                || state is SettingNoDelay || state is Sending ==> #[trigger] awaited(
                state,
                ClientEvent::Done,
            ) && awaited(state, ClientEvent::Failed(reason)),
        awaited(ClientState::CheckingClock, ClientEvent::Clock(elapsed)),
        1 <= input <= 1000 ==> awaited(ClientState::DrawingInput, ClientEvent::Drawn(input)),
        awaited(ClientState::Receiving { input }, ClientEvent::Failed(reason)),
        awaited(
            ClientState::Receiving { input },
            ClientEvent::Received { response, took: elapsed },
        ),
{
}

/// A connection waits for nothing but the outcomes of the action that it asked
/// for.
pub proof fn lemma_no_other_outcome_is_awaited(state: ClientState, event: ClientEvent)
    requires
        awaited(state, event),
    ensures
        match event {
            ClientEvent::Done => state is Connecting || state is SettingReadTimeout || state
                is SettingWriteTimeout || state is SettingNoDelay || state is Sending,
            ClientEvent::Failed(_) => state is Connecting || state is SettingReadTimeout || state
                is SettingWriteTimeout || state is SettingNoDelay || state is Sending || state
                is Receiving,
            ClientEvent::Clock(_) => state is CheckingClock,
            ClientEvent::Drawn(input) => state is DrawingInput && 1 <= input <= 1000,
            ClientEvent::Received { .. } => state is Receiving,
        },
{
}

/// A connection looks at the clock before every request: whatever time it has,
/// each answer leads back to the clock, and only the clock leads on to a number.
pub proof fn lemma_clock_before_every_request(
    max_duration: Interval,
    state: ClientState,
    event: ClientEvent,
)
    requires
        awaited(state, event),
    ensures
        state_after(max_duration, state, event) is DrawingInput <==> (event matches
            ClientEvent::Clock(elapsed) && elapsed@ < max_duration@),
        state_after(max_duration, state, event) is Sending <==> state is DrawingInput,
        state_after(max_duration, state, event) is Receiving <==> state is Sending && event is Done,
        state_after(max_duration, state, event) is CheckingClock <==> state is SettingNoDelay || (
        event matches ClientEvent::Received { response, .. } && response@.len() > 0),
{
}

/// Each state has its own action: one that is asked for in one state is asked
/// for in no other.
pub proof fn lemma_action_of_a_state(state: ClientState, action: ClientAction)
    requires
        action_for(state, action),
    ensures
        match action {
            ClientAction::Connect => state is Connecting,
            ClientAction::SetReadTimeout => state is SettingReadTimeout,
            ClientAction::SetWriteTimeout => state is SettingWriteTimeout,
            ClientAction::SetNoDelay => state is SettingNoDelay,
            ClientAction::CheckClock => state is CheckingClock,
            ClientAction::DrawInput => state is DrawingInput,
            ClientAction::Send(_) => state is Sending,
            ClientAction::Receive => state is Receiving,
            ClientAction::Finish => state is Finished,
            ClientAction::Abort => state is Aborted,
        },
{
}

/// A connection takes in every outcome that it waits for, as long as it can count
/// the answers.
pub proof fn lemma_awaited_outcomes_are_taken_in(connection: ClientConnection, event: ClientEvent)
    ensures
        connection.answers() < 0xffff_ffff_ffff_ffff ==> (connection.ready_for(event) <==> awaited(
            connection.phase(),
            event,
        )),
        !is_answer(event) ==> (connection.ready_for(event) <==> awaited(connection.phase(), event)),
{
}

/// The text of a line is that of its characters.
pub proof fn lemma_text_of_a_line(line: String)
    ensures
        text_of(Some(line)) == Some(line@),
        text_of(None) is None,
{
}

} // verus!
