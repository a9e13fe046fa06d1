use gpt_copy_v9::state::StreamRegistry;

#[test]
fn stream_registry_rejects_duplicate_conversation_until_released() {
    let mut registry = StreamRegistry::default();

    assert!(registry.try_acquire("conversation-1"));
    assert!(!registry.try_acquire("conversation-1"));
    assert!(registry.try_acquire("conversation-2"));

    registry.release("conversation-1");

    assert!(registry.try_acquire("conversation-1"));
}

#[test]
fn releasing_a_free_conversation_changes_nothing() {
    let mut registry = StreamRegistry::new();
    registry.release("c");
    assert!(registry.try_acquire("c"));
    registry.release("other");
    assert!(!registry.try_acquire("c"));
}
