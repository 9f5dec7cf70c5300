//! The feed client as a state machine.
//!
//! The machine decides; it does not act. Its driver opens the connection,
//! sends, receives and logs, tells the machine what happened as a
//! `FeedEvent`, and does what the machine answers with a `ClientAction`.

use vstd::prelude::*;
use crate::alert::AlertConfig;
use crate::alert::evaluate_alert;
use crate::alert::qualifying_blocks;
use crate::alert::should_alert;
use crate::decoder::MempoolBlockInfo;
use crate::decoder::decode;
use crate::decoder::process_mempool_blocks;
use crate::json::Json;
use crate::json::json_of;
use crate::json::parsed_json;

verus! {

/// Where a run of the client stands.
#[derive(Clone, Copy, Debug, PartialEq, Eq, Structural)]
pub enum ClientState {
    /// The connection is being opened.
    Connecting,
    /// The connection is open and the handshake is being sent.
    Handshaking,
    /// The handshake is out and updates are being received.
    Streaming,
    /// The run is over.
    Terminated,
}

/// What the driver reports to the machine.
#[derive(Debug)]
pub enum FeedEvent {
    /// The connection was opened.
    Connected,
    /// The connection could not be opened.
    ConnectFailed,
    /// Both handshake messages were sent.
    HandshakeSent,
    /// A handshake message could not be sent.
    HandshakeFailed,
    /// A text message arrived.
    Text(String),
    /// The feed sent the message that closes the connection.
    Close,
    /// Receiving failed, and the connection may still deliver.
    TransportError,
    /// The connection delivers no more.
    StreamEnded,
    /// A message that is neither text nor close arrived.
    Other,
}

/// What the machine tells the driver to do.
#[derive(Debug)]
pub enum ClientAction {
    /// Send the messages of `handshake_messages`, in their order, and wait for
    /// no answer.
    SendHandshake,
    /// Nothing to do: go on waiting.
    Continue,
    /// Log one line for each of these summaries and signal the alert sink,
    /// then go on receiving.
    RaiseAlert(Vec<MempoolBlockInfo>),
    /// Log that the feed has closed the connection and end the run with
    /// success.
    ReportClosed,
    /// Log the transport error and go on receiving.
    ReportError,
    /// End the run and hand the error to the caller.
    Fail,
    /// End the run with success.
    Stop,
}

/// A `ClientAction` with its summaries as a sequence.
pub enum Action {
    SendHandshake,
    Continue,
    RaiseAlert(Seq<MempoolBlockInfo>),
    ReportClosed,
    ReportError,
    Fail,
    Stop,
}

impl View for ClientAction {
    type V = Action;

    open spec fn view(&self) -> Action {
        match *self {
            ClientAction::SendHandshake => Action::SendHandshake,
            ClientAction::Continue => Action::Continue,
            ClientAction::RaiseAlert(blocks) => Action::RaiseAlert(blocks@),
            ClientAction::ReportClosed => Action::ReportClosed,
            ClientAction::ReportError => Action::ReportError,
            ClientAction::Fail => Action::Fail,
            ClientAction::Stop => Action::Stop,
        }
    }
}

/// The message that opens the exchange with the feed.
pub open spec fn init_text() -> Seq<char> {
    "{\"action\":\"init\"}"@
}

/// The message that subscribes to the predicted blocks.
pub open spec fn subscribe_text() -> Seq<char> {
    "{\"action\":\"want\",\"data\":[\"mempool-blocks\"]}"@
}

/// The two messages of the handshake, in the order in which they are sent.
pub fn handshake_messages() -> (messages: Vec<&'static str>)
    ensures
        messages@.len() == 2,
        messages@[0]@ == init_text(),
        messages@[1]@ == subscribe_text(),
{
    let mut messages: Vec<&'static str> = Vec::new();
    messages.push("{\"action\":\"init\"}");
    messages.push("{\"action\":\"want\",\"data\":[\"mempool-blocks\"]}");
    messages
}

/// How far a run has come: states are passed in this order and never back.
pub open spec fn progress(state: ClientState) -> nat {
    match state {
        ClientState::Connecting => 0,
        ClientState::Handshaking => 1,
        ClientState::Streaming => 2,
        ClientState::Terminated => 3,
    }
}

/// The state after `event` is reported in `state`. An event that has no place
/// in a state leaves the state as it is.
pub open spec fn next_state(state: ClientState, event: FeedEvent) -> ClientState {
    match (state, event) {
        (ClientState::Connecting, FeedEvent::Connected) => ClientState::Handshaking,
        (ClientState::Connecting, FeedEvent::ConnectFailed) => ClientState::Terminated,
        (ClientState::Handshaking, FeedEvent::HandshakeSent) => ClientState::Streaming,
        (ClientState::Handshaking, FeedEvent::HandshakeFailed) => ClientState::Terminated,
        (ClientState::Streaming, FeedEvent::Close) => ClientState::Terminated,
        (ClientState::Streaming, FeedEvent::StreamEnded) => ClientState::Terminated,
        (state, _) => state,
    }
}

/// What a decoded update asks for: an alert with the qualifying summaries
/// where the rule alerts, and nothing otherwise.
pub open spec fn reaction_to_update(update: Json, config: AlertConfig) -> Action {
    let blocks = decode(update);
    if should_alert(blocks, config.threshold_fee_rate, config.window_size as nat) {
        Action::RaiseAlert(
            qualifying_blocks(blocks, config.threshold_fee_rate, config.window_size as nat),
        )
    } else {
        Action::Continue
    }
}

/// What a text message asks for: what the update in it asks for, and nothing
/// where the text is not a JSON document.
pub open spec fn reaction_to_text(text: Seq<char>, config: AlertConfig) -> Action {
    match parsed_json(text) {
        Some(update) => reaction_to_update(update, config),
        None => Action::Continue,
    }
}

/// What the machine answers when `event` is reported in `state`.
pub open spec fn reaction(state: ClientState, event: FeedEvent, config: AlertConfig) -> Action {
    match (state, event) {
        (ClientState::Connecting, FeedEvent::Connected) => Action::SendHandshake,
        (ClientState::Connecting, FeedEvent::ConnectFailed) => Action::Fail,
        (ClientState::Handshaking, FeedEvent::HandshakeSent) => Action::Continue,
        (ClientState::Handshaking, FeedEvent::HandshakeFailed) => Action::Fail,
        (ClientState::Streaming, FeedEvent::Text(text)) => reaction_to_text(text@, config),
        (ClientState::Streaming, FeedEvent::Close) => Action::ReportClosed,
        (ClientState::Streaming, FeedEvent::TransportError) => Action::ReportError,
        (ClientState::Streaming, FeedEvent::StreamEnded) => Action::Stop,
        (ClientState::Terminated, _) => Action::Stop,
        (_, _) => Action::Continue,
    }
}

/// Applies the alert rule to a decoded update.
pub fn react_to_update(update: &serde_json::Value, config: &AlertConfig) -> (action: ClientAction)
    ensures
        action@ == reaction_to_update(json_of(*update), *config),
{
    let blocks = process_mempool_blocks(update);
    let decision = evaluate_alert(&blocks, config);
    if decision.alert {
        ClientAction::RaiseAlert(decision.qualifying)
    } else {
        ClientAction::Continue
    }
}

/// Reads a text message and applies the alert rule to the update in it. A
/// text that is not a JSON document is passed over.
pub fn react_to_text(text: &str, config: &AlertConfig) -> (action: ClientAction)
    ensures
        action@ == reaction_to_text(text@, *config),
{
    match crate::json::parse(text) {
        Ok(update) => react_to_update(&update, config),
        Err(_) => ClientAction::Continue,
    }
}

/// One run of the feed client.
#[derive(Debug)]
pub struct FeedClient {
    pub state: ClientState,
    pub config: AlertConfig,
}

impl FeedClient {
    /// A client that has yet to connect.
    pub fn new(config: AlertConfig) -> (client: FeedClient)
        ensures
            client.state == ClientState::Connecting,
            client.config == config,
    {
        FeedClient { state: ClientState::Connecting, config }
    }

    /// Whether the run is over.
    pub fn is_terminated(&self) -> (r: bool)
        ensures
            r == (self.state == ClientState::Terminated),
    {
        match self.state {
            ClientState::Terminated => true,
            _ => false,
        }
    }

    /// Takes an event and answers with what to do.
    ///
    /// The state moves as `next_state` says, never back, and stays
    /// `Terminated` once it is. The answer is `reaction`'s. The configuration
    /// does not change.
    pub fn handle(&mut self, event: &FeedEvent) -> (action: ClientAction)
        ensures
            final(self).config == old(self).config,
            final(self).state == next_state(old(self).state, *event),
            action@ == reaction(old(self).state, *event, old(self).config),
            progress(old(self).state) <= progress(final(self).state),
            action@ is RaiseAlert ==> old(self).state == ClientState::Streaming && final(self).state
                == ClientState::Streaming,
    {
        match self.state {
            ClientState::Connecting => match event {
                FeedEvent::Connected => {
                    self.state = ClientState::Handshaking;
                    ClientAction::SendHandshake
                },
                FeedEvent::ConnectFailed => {
                    self.state = ClientState::Terminated;
                    ClientAction::Fail
                },
                _ => ClientAction::Continue,
            },
            ClientState::Handshaking => match event {
                FeedEvent::HandshakeSent => {
                    self.state = ClientState::Streaming;
                    ClientAction::Continue
                },
                FeedEvent::HandshakeFailed => {
                    self.state = ClientState::Terminated;
                    ClientAction::Fail
                },
                _ => ClientAction::Continue,
            },
            ClientState::Streaming => match event {
                FeedEvent::Text(text) => react_to_text(text.as_str(), &self.config),
                FeedEvent::Close => {
                    self.state = ClientState::Terminated;
                    ClientAction::ReportClosed
                },
                FeedEvent::TransportError => ClientAction::ReportError,
                FeedEvent::StreamEnded => {
                    self.state = ClientState::Terminated;
                    ClientAction::Stop
                },
                _ => ClientAction::Continue,
            },
            ClientState::Terminated => ClientAction::Stop,
        }
    }
}

/// Once a run is over it stays over, whatever is reported, and the machine
/// asks for nothing more.
pub proof fn lemma_terminated_is_final(event: FeedEvent, config: AlertConfig)
    ensures
        next_state(ClientState::Terminated, event) == ClientState::Terminated,
        reaction(ClientState::Terminated, event, config) == Action::Stop,
{
}

/// A run never goes back to a state that it has left.
pub proof fn lemma_state_never_goes_back(state: ClientState, event: FeedEvent)
    ensures
        progress(state) <= progress(next_state(state, event)),
{
}

/// An alert is raised only for a text message that arrives while streaming:
/// one that holds an update for which the rule alerts. The run goes on
/// streaming after it.
pub proof fn lemma_alert_only_while_streaming(
    state: ClientState,
    event: FeedEvent,
    config: AlertConfig,
)
    requires
        reaction(state, event, config) is RaiseAlert,
    ensures
        state == ClientState::Streaming,
        next_state(state, event) == ClientState::Streaming,
        event is Text,
        parsed_json(event->Text_0@) is Some,
        should_alert(
            decode(parsed_json(event->Text_0@)->0),
            config.threshold_fee_rate,
            config.window_size as nat,
        ),
{
}

/// A text that is not a JSON document changes nothing: the run goes on
/// streaming and waits for the next message.
pub proof fn lemma_malformed_text_is_passed_over(text: String, config: AlertConfig)
    requires
        parsed_json(text@) is None,
    ensures
        next_state(ClientState::Streaming, FeedEvent::Text(text)) == ClientState::Streaming,
        reaction(ClientState::Streaming, FeedEvent::Text(text), config) == Action::Continue,
{
}

} // verus!
