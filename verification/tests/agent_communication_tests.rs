use codex_grok::agent_communication::agent_communication_created_event;
use codex_grok::agent_communication::agent_communication_enqueued_event;
use codex_grok::agent_communication::agent_communication_logging_enabled;
use codex_grok::agent_communication::communication_content;
use codex_grok::agent_communication::new_agent_communication_metadata;
use codex_grok::agent_communication::new_agent_communication_metadata_unchecked;
use codex_grok::agent_communication::AgentCommunicationKind;
use codex_grok::agent_communication::AgentCommunicationState;
use codex_grok::agent_communication::InterAgentCommunication;

fn root() -> String {
    "/root".to_string()
}

#[test]
fn logging_requires_explicit_enable_value() {
    assert!(!agent_communication_logging_enabled(None));
    assert!(!agent_communication_logging_enabled(Some("true")));
    assert!(agent_communication_logging_enabled(Some("1")));
}

#[test]
fn emits_opt_in_structured_lifecycle_events() {
    let sender_thread_id = "thread-sender";
    let receiver_thread_id = "thread-receiver";
    let mut communication = InterAgentCommunication::new(root(), root(), Vec::new(), "hello".to_string(), false);
    let metadata = new_agent_communication_metadata_unchecked(
        AgentCommunicationKind::Message,
        sender_thread_id,
        Some("call-1"),
    );
    communication.agent_communication_metadata = Some(metadata.clone());
    let created = agent_communication_created_event(&communication, receiver_thread_id).expect("created event");
    let enqueued = agent_communication_enqueued_event(&metadata, receiver_thread_id, "hello");
    for (event, state) in [(&created, AgentCommunicationState::Created), (&enqueued, AgentCommunicationState::Enqueued)] {
        assert_eq!(event.communication_id, metadata.id);
        assert_eq!(event.kind.as_str(), "message");
        assert_eq!(event.state, state);
        assert_eq!(event.sender_thread_id, sender_thread_id);
        assert_eq!(event.receiver_thread_id, receiver_thread_id);
        assert_eq!(event.content, "hello");
        assert_eq!(event.source_call_id.as_deref(), Some("call-1"));
    }
    assert_eq!(created.state.as_str(), "created");
    assert_eq!(enqueued.state.as_str(), "enqueued");

    let result_metadata = new_agent_communication_metadata_unchecked(
        AgentCommunicationKind::Result,
        receiver_thread_id,
        None,
    );
    communication.agent_communication_metadata = Some(result_metadata.clone());
    let event = agent_communication_created_event(&communication, sender_thread_id).expect("result event");
    assert_eq!(event.communication_id, result_metadata.id);
    assert_eq!(event.kind.as_str(), "result");
    assert_eq!(event.sender_thread_id, receiver_thread_id);
    assert_eq!(event.receiver_thread_id, sender_thread_id);
    assert_eq!(event.content, "hello");
    assert!(event.source_call_id.is_none());
    assert_ne!(metadata.id, result_metadata.id);
    assert_eq!(metadata.id.len(), 36);
}

#[test]
fn content_prefers_plaintext_and_falls_back_to_encrypted_content() {
    let mut plaintext = InterAgentCommunication::new(root(), root(), Vec::new(), "plain".to_string(), false);
    plaintext.encrypted_content = Some("encrypted".to_string());
    let encrypted = InterAgentCommunication::new_encrypted(root(), root(), Vec::new(), "encrypted".to_string(), false);
    let contents = [&plaintext, &encrypted].map(communication_content);
    assert_eq!(contents, ["plain", "encrypted"]);
}

#[test]
fn communications_without_metadata_make_no_record() {
    let communication = InterAgentCommunication::new(root(), root(), Vec::new(), "x".to_string(), true);
    assert!(agent_communication_created_event(&communication, "t").is_none());
    assert!(new_agent_communication_metadata(Some("0"), AgentCommunicationKind::Message, "t", None).is_none());
    assert!(new_agent_communication_metadata(Some("1"), AgentCommunicationKind::Message, "t", None).is_some());
}
