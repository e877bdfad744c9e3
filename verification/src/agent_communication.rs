//! Structured lifecycle records of messages between agents.
//!
//! Records are made only when `CODEX_AGENT_COMMUNICATION_LOG=1`; they carry the message
//! content, so logging them is opt-in.

use vstd::prelude::*;

use uuid::Uuid;

verus! {

/// Environment variable that turns the records on.
pub const AGENT_COMMUNICATION_LOG_ENV: &'static str = "CODEX_AGENT_COMMUNICATION_LOG";

/// What one agent sent another.
#[derive(Clone, Copy, Debug, PartialEq, Eq, Structural)]
pub enum AgentCommunicationKind {
    Message,
    Result,
}

/// Where a communication is in its life.
#[derive(Clone, Copy, Debug, PartialEq, Eq, Structural)]
pub enum AgentCommunicationState {
    Created,
    Enqueued,
}

pub open spec fn kind_text(k: AgentCommunicationKind) -> Seq<char> {
    match k {
        AgentCommunicationKind::Message => "message"@,
        AgentCommunicationKind::Result => "result"@,
    }
}

pub open spec fn state_text(s: AgentCommunicationState) -> Seq<char> {
    match s {
        AgentCommunicationState::Created => "created"@,
        AgentCommunicationState::Enqueued => "enqueued"@,
    }
}

impl AgentCommunicationKind {
    pub fn as_str(&self) -> (r: &'static str)
        ensures
            r@ == kind_text(*self),
    {
        match self {
            AgentCommunicationKind::Message => "message",
            AgentCommunicationKind::Result => "result",
        }
    }
}

impl AgentCommunicationState {
    pub fn as_str(&self) -> (r: &'static str)
        ensures
            r@ == state_text(*self),
    {
        match self {
            AgentCommunicationState::Created => "created",
            AgentCommunicationState::Enqueued => "enqueued",
        }
    }
}

/// Identity of one communication, carried from creation to delivery.
#[derive(Clone, Debug, PartialEq)]
pub struct AgentCommunicationMetadata {
    pub id: String,
    pub kind: AgentCommunicationKind,
    pub sender_thread_id: String,
    pub source_call_id: Option<String>,
}

/// A message between agents.
#[derive(Debug, PartialEq)]
pub struct InterAgentCommunication {
    pub author: String,
    pub recipient: String,
    pub other_recipients: Vec<String>,
    pub content: String,
    pub encrypted_content: Option<String>,
    pub trigger_turn: bool,
    pub agent_communication_metadata: Option<AgentCommunicationMetadata>,
}

impl InterAgentCommunication {
    /// A plaintext message.
    pub fn new(
        author: String,
        recipient: String,
        other_recipients: Vec<String>,
        content: String,
        trigger_turn: bool,
    ) -> (r: Self)
        ensures
            r.author == author,
            r.recipient == recipient,
            r.other_recipients == other_recipients,
            r.content == content,
            r.encrypted_content is None,
            r.trigger_turn == trigger_turn,
            r.agent_communication_metadata is None,
    {
        InterAgentCommunication {
            author,
            recipient,
            other_recipients,
            content,
            encrypted_content: None,
            trigger_turn,
            agent_communication_metadata: None,
        }
    }

    /// A message whose content travels encrypted only.
    pub fn new_encrypted(
        author: String,
        recipient: String,
        other_recipients: Vec<String>,
        encrypted_content: String,
        trigger_turn: bool,
    ) -> (r: Self)
        ensures
            r.author == author,
            r.recipient == recipient,
            r.other_recipients == other_recipients,
            r.content@.len() == 0,
            r.encrypted_content == Some(encrypted_content),
            r.trigger_turn == trigger_turn,
            r.agent_communication_metadata is None,
    {
        InterAgentCommunication {
            author,
            recipient,
            other_recipients,
            content: String::new(),
            encrypted_content: Some(encrypted_content),
            trigger_turn,
            agent_communication_metadata: None,
        }
    }
}

/// Records are on exactly when the variable holds `1`.
pub fn agent_communication_logging_enabled(value: Option<&str>) -> (r: bool)
    ensures
        r == (value matches Some(v) && v@ == "1"@),
{
    match value {
        Some(v) => String::from_str(v) == String::from_str("1"),
        None => false,
    }
}

/// `Uuid::new_v4().to_string()`: a random version-4 UUID in its hyphenated form, 36
/// characters; nothing else is claimed of it.
#[verifier::external_body]
fn new_uuid_v4() -> (r: String)
    ensures
        r@.len() == 36,
{
    Uuid::new_v4().to_string()
}

/// Metadata for a new communication, under a fresh id.
pub fn new_agent_communication_metadata_unchecked(
    kind: AgentCommunicationKind,
    sender_thread_id: &str,
    source_call_id: Option<&str>,
) -> (r: AgentCommunicationMetadata)
    ensures
        r.id@.len() == 36,
        r.kind == kind,
        r.sender_thread_id@ == sender_thread_id@,
        match source_call_id {
            Some(c) => r.source_call_id matches Some(x) && x@ == c@,
            None => r.source_call_id is None,
        },
{
    AgentCommunicationMetadata {
        id: new_uuid_v4(),
        kind,
        sender_thread_id: String::from_str(sender_thread_id),
        source_call_id: match source_call_id {
            Some(c) => Some(String::from_str(c)),
            None => None,
        },
    }
}

/// Metadata for a new communication when records are on (`log_env_value` is the value of
/// [`AGENT_COMMUNICATION_LOG_ENV`]); nothing otherwise.
pub fn new_agent_communication_metadata(
    log_env_value: Option<&str>,
    kind: AgentCommunicationKind,
    sender_thread_id: &str,
    source_call_id: Option<&str>,
) -> (r: Option<AgentCommunicationMetadata>)
    ensures
        r is Some <==> (log_env_value matches Some(v) && v@ == "1"@),
        r matches Some(m) ==> m.id@.len() == 36 && m.kind == kind && m.sender_thread_id@ == sender_thread_id@
            && match source_call_id {
            Some(c) => m.source_call_id matches Some(x) && x@ == c@,
            None => m.source_call_id is None,
        },
{
    if !agent_communication_logging_enabled(log_env_value) {
        return None;
    }
    Some(new_agent_communication_metadata_unchecked(kind, sender_thread_id, source_call_id))
}

/// The content a record carries: the plaintext, or the encrypted content when there is
/// no plaintext, or nothing.
pub open spec fn content_of(c: InterAgentCommunication) -> Seq<char> {
    if c.content@.len() == 0 {
        match c.encrypted_content {
            Some(e) => e@,
            None => Seq::empty(),
        }
    } else {
        c.content@
    }
}

/// The content of `communication` (see [`content_of`]).
pub fn communication_content(communication: &InterAgentCommunication) -> (r: &str)
    ensures
        r@ == content_of(*communication),
{
    if communication.content.as_str().unicode_len() == 0 {
        match &communication.encrypted_content {
            Some(e) => e.as_str(),
            None => {
                proof {
                    reveal_strlit("");
                }
                ""
            },
        }
    } else {
        communication.content.as_str()
    }
}

/// One lifecycle record, as the `codex_agent_communication` log target receives it.
#[derive(Debug, PartialEq)]
pub struct AgentCommunicationEvent {
    pub communication_id: String,
    pub kind: AgentCommunicationKind,
    pub state: AgentCommunicationState,
    pub sender_thread_id: String,
    pub receiver_thread_id: String,
    pub content: String,
    pub source_call_id: Option<String>,
}

/// The record of `metadata` reaching `state` on its way to `receiver_thread_id`.
pub open spec fn is_event(
    e: AgentCommunicationEvent,
    metadata: AgentCommunicationMetadata,
    state: AgentCommunicationState,
    receiver_thread_id: Seq<char>,
    content: Seq<char>,
) -> bool {
    &&& e.communication_id@ == metadata.id@
    &&& e.kind == metadata.kind
    &&& e.state == state
    &&& e.sender_thread_id@ == metadata.sender_thread_id@
    &&& e.receiver_thread_id@ == receiver_thread_id
    &&& e.content@ == content
    &&& match metadata.source_call_id {
        Some(c) => e.source_call_id matches Some(x) && x@ == c@,
        None => e.source_call_id is None,
    }
}

fn agent_communication_event(
    metadata: &AgentCommunicationMetadata,
    state: AgentCommunicationState,
    receiver_thread_id: &str,
    content: &str,
) -> (r: AgentCommunicationEvent)
    ensures
        is_event(r, *metadata, state, receiver_thread_id@, content@),
{
    AgentCommunicationEvent {
        communication_id: metadata.id.clone(),
        kind: metadata.kind,
        state,
        sender_thread_id: metadata.sender_thread_id.clone(),
        receiver_thread_id: String::from_str(receiver_thread_id),
        content: String::from_str(content),
        source_call_id: match &metadata.source_call_id {
            Some(c) => Some(c.clone()),
            None => None,
        },
    }
}

/// The `created` record of `communication`; none when it carries no metadata.
pub fn agent_communication_created_event(
    communication: &InterAgentCommunication,
    receiver_thread_id: &str,
) -> (r: Option<AgentCommunicationEvent>)
    ensures
        match communication.agent_communication_metadata {
            Some(m) => r matches Some(e) && is_event(
                e,
                m,
                AgentCommunicationState::Created,
                receiver_thread_id@,
                content_of(*communication),
            ),
            None => r is None,
        },
{
    match &communication.agent_communication_metadata {
        Some(metadata) => Some(
            agent_communication_event(
                metadata,
                AgentCommunicationState::Created,
                receiver_thread_id,
                communication_content(communication),
            ),
        ),
        None => None,
    }
}

/// The `enqueued` record of a communication with `metadata` and `content`.
pub fn agent_communication_enqueued_event(
    metadata: &AgentCommunicationMetadata,
    receiver_thread_id: &str,
    content: &str,
) -> (r: AgentCommunicationEvent)
    ensures
        is_event(r, *metadata, AgentCommunicationState::Enqueued, receiver_thread_id@, content@),
{
    agent_communication_event(metadata, AgentCommunicationState::Enqueued, receiver_thread_id, content)
}

} // verus!
