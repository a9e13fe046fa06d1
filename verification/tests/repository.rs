use gpt_copy_v9::error::AppError;
use gpt_copy_v9::repository::Repository;

/// Sixteen "random" bytes, all `n`.
fn rnd(n: u8) -> [u8; 16] {
    [n; 16]
}

fn not_found<T: std::fmt::Debug>(r: Result<T, AppError>) -> String {
    match r {
        Err(AppError::NotFound(m)) => m,
        other => panic!("expected NotFound, got {other:?}"),
    }
}

#[test]
fn test_create_and_list_conversations() {
    let mut repo = Repository::new();
    let conv = repo.create_conversation("Test Chat", rnd(1), 1001).unwrap();
    assert_eq!(conv.title, "Test Chat");

    let convs = repo.list_conversations();
    assert_eq!(convs.len(), 1);
    assert_eq!(convs[0].id, conv.id);
}

#[test]
fn repository_test_get_conversation_not_found() {
    let repo = Repository::new();
    let result = repo.get_conversation("nonexistent-id");
    assert!(result.is_err());
    assert_eq!(not_found(result), "Conversation nonexistent-id not found");
}

#[test]
fn repository_test_update_conversation() {
    let mut repo = Repository::new();
    let conv = repo.create_conversation("Original", rnd(2), 1002).unwrap();
    let updated = repo.update_conversation(&conv.id, Some("Updated"), 1016).unwrap();
    assert_eq!(updated.title, "Updated");
    assert_eq!(updated.created_at, conv.created_at);
    assert!(updated.updated_at >= conv.updated_at);
}

#[test]
fn repository_test_delete_conversation() {
    let mut repo = Repository::new();
    let conv = repo.create_conversation("To Delete", rnd(3), 1003).unwrap();
    repo.delete_conversation(&conv.id).unwrap();
    let result = repo.get_conversation(&conv.id);
    assert!(result.is_err());
}

#[test]
fn test_create_and_list_messages() {
    let mut repo = Repository::new();
    let conv = repo.create_conversation("Chat", rnd(4), 1004).unwrap();
    let msg = repo.create_message(&conv.id, "user", "Hello", rnd(9), 1009).unwrap();
    assert_eq!(msg.role, "user");
    assert_eq!(msg.content, "Hello");

    let msgs = repo.list_messages(&conv.id);
    assert_eq!(msgs.len(), 1);
    assert_eq!(msgs[0].id, msg.id);
}

#[test]
fn repository_test_delete_message() {
    let mut repo = Repository::new();
    let conv = repo.create_conversation("Chat", rnd(5), 1005).unwrap();
    let msg = repo.create_message(&conv.id, "user", "Hello", rnd(10), 1010).unwrap();
    repo.delete_message(&conv.id, &msg.id).unwrap();
    let msgs = repo.list_messages(&conv.id);
    assert!(msgs.is_empty());
}

#[test]
fn test_messages_ordered_chronologically() {
    let mut repo = Repository::new();
    let conv = repo.create_conversation("Chat", rnd(6), 1006).unwrap();
    repo.create_message(&conv.id, "user", "First", rnd(11), 1011).unwrap();
    repo.create_message(&conv.id, "assistant", "Second", rnd(12), 1012).unwrap();
    repo.create_message(&conv.id, "user", "Third", rnd(13), 1013).unwrap();

    let msgs = repo.list_messages(&conv.id);
    assert_eq!(msgs.len(), 3);
    assert_eq!(msgs[0].content, "First");
    assert_eq!(msgs[2].content, "Third");
}

#[test]
fn test_delete_conversation_cascades_messages() {
    let mut repo = Repository::new();
    let conv = repo.create_conversation("Chat", rnd(7), 1007).unwrap();
    repo.create_message(&conv.id, "user", "msg1", rnd(14), 1014).unwrap();
    repo.delete_conversation(&conv.id).unwrap();
    assert_eq!(repo.list_messages(&conv.id).len(), 0);
}

// ---------------------------------------------------------------------------

#[test]
fn conversations_listed_by_update_time_newest_first() {
    let mut repo = Repository::new();
    repo.create_conversation_with("a", "A", 10).unwrap();
    repo.create_conversation_with("b", "B", 30).unwrap();
    repo.create_conversation_with("c", "C", 20).unwrap();
    let ids: Vec<String> = repo.list_conversations().into_iter().map(|c| c.id).collect();
    assert_eq!(ids, ["b", "c", "a"]);

    repo.update_conversation("a", None, 40).unwrap();
    let ids: Vec<String> = repo.list_conversations().into_iter().map(|c| c.id).collect();
    assert_eq!(ids, ["a", "b", "c"]);
}

#[test]
fn equal_update_times_list_the_latest_placed_first() {
    let mut repo = Repository::new();
    repo.create_conversation_with("a", "A", 5).unwrap();
    repo.create_conversation_with("b", "B", 5).unwrap();
    let ids: Vec<String> = repo.list_conversations().into_iter().map(|c| c.id).collect();
    assert_eq!(ids, ["b", "a"]);
}

#[test]
fn creating_a_message_touches_its_conversation() {
    let mut repo = Repository::new();
    repo.create_conversation_with("a", "A", 10).unwrap();
    repo.create_conversation_with("b", "B", 20).unwrap();
    let m = repo.create_message_with("m1", "a", "user", "hi", 50).unwrap();
    assert_eq!(m.created_at, 50);
    let a = repo.get_conversation("a").unwrap();
    assert_eq!(a.updated_at, 50);
    assert_eq!(a.created_at, 10);
    assert_eq!(repo.list_conversations()[0].id, "a");
}

#[test]
fn messages_sorted_by_time_then_insertion() {
    let mut repo = Repository::new();
    repo.create_conversation_with("c", "C", 1).unwrap();
    repo.create_message_with("m3", "c", "user", "three", 30).unwrap();
    repo.create_message_with("m1", "c", "user", "one", 10).unwrap();
    repo.create_message_with("m2a", "c", "user", "two-a", 20).unwrap();
    repo.create_message_with("m2b", "c", "user", "two-b", 20).unwrap();
    let contents: Vec<String> = repo.list_messages("c").into_iter().map(|m| m.content).collect();
    assert_eq!(contents, ["one", "two-a", "two-b", "three"]);
}

#[test]
fn message_in_unknown_conversation_is_refused() {
    let mut repo = Repository::new();
    match repo.create_message_with("m", "missing", "user", "x", 1) {
        Err(AppError::Database(m)) => assert_eq!(m, "FOREIGN KEY constraint failed"),
        other => panic!("unexpected {other:?}"),
    }
    assert!(repo.create_message("missing", "user", "x", rnd(15), 1015).is_err());
}

#[test]
fn taken_ids_are_refused() {
    let mut repo = Repository::new();
    repo.create_conversation_with("a", "A", 1).unwrap();
    match repo.create_conversation_with("a", "again", 2) {
        Err(AppError::Database(m)) => assert_eq!(m, "UNIQUE constraint failed: conversations.id"),
        other => panic!("unexpected {other:?}"),
    }
    assert_eq!(repo.get_conversation("a").unwrap().title, "A");
    repo.create_message_with("m", "a", "user", "x", 1).unwrap();
    match repo.create_message_with("m", "a", "user", "y", 2) {
        Err(AppError::Database(m)) => assert_eq!(m, "UNIQUE constraint failed: messages.id"),
        other => panic!("unexpected {other:?}"),
    }
}

#[test]
fn get_and_delete_message_check_the_conversation() {
    let mut repo = Repository::new();
    repo.create_conversation_with("a", "A", 1).unwrap();
    repo.create_conversation_with("b", "B", 1).unwrap();
    repo.create_message_with("m", "a", "user", "x", 1).unwrap();
    assert_eq!(repo.get_message("a", "m").unwrap().content, "x");
    assert_eq!(not_found(repo.get_message("b", "m")), "Message m not found");
    assert_eq!(not_found(repo.delete_message("b", "m")), "Message m not found");
    assert_eq!(repo.list_messages("a").len(), 1);
}

#[test]
fn delete_keeps_other_conversations_messages() {
    let mut repo = Repository::new();
    repo.create_conversation_with("a", "A", 1).unwrap();
    repo.create_conversation_with("b", "B", 1).unwrap();
    repo.create_message_with("ma", "a", "user", "x", 1).unwrap();
    repo.create_message_with("mb", "b", "user", "y", 2).unwrap();
    repo.delete_conversation("a").unwrap();
    assert_eq!(repo.list_messages("b").len(), 1);
    assert_eq!(repo.list_conversations().len(), 1);
    assert_eq!(not_found(repo.delete_conversation("a")), "Conversation a not found");
    assert_eq!(not_found(repo.update_conversation("a", Some("t"), 1017)), "Conversation a not found");
}

#[test]
fn message_pair_is_stored_together() {
    let mut repo = Repository::new();
    repo.create_conversation_with("a", "A", 1).unwrap();
    repo.create_user_assistant_message_pair_with("u", "v", "a", "question", "answer", 100).unwrap();
    let msgs = repo.list_messages("a");
    assert_eq!(msgs.len(), 2);
    assert_eq!((msgs[0].role.as_str(), msgs[0].content.as_str(), msgs[0].created_at), ("user", "question", 100));
    assert_eq!((msgs[1].role.as_str(), msgs[1].content.as_str(), msgs[1].created_at), ("assistant", "answer", 101));
    assert_eq!(repo.get_conversation("a").unwrap().updated_at, 101);
}

#[test]
fn message_pair_is_all_or_nothing() {
    let mut repo = Repository::new();
    repo.create_conversation_with("a", "A", 1).unwrap();
    repo.create_message_with("v", "a", "user", "old", 1).unwrap();
    assert!(repo.create_user_assistant_message_pair_with("u", "v", "a", "q", "a", 5).is_err());
    assert!(repo.create_user_assistant_message_pair_with("w", "w", "a", "q", "a", 5).is_err());
    assert_eq!(repo.list_messages("a").len(), 1);
    assert!(repo.create_user_assistant_message_pair("missing", "q", "a", rnd(90), rnd(91), 500).is_err());
    repo.create_user_assistant_message_pair("a", "q", "a", rnd(90), rnd(91), 500).unwrap();
    assert_eq!(repo.list_messages("a").len(), 3);
}

#[test]
fn fresh_ids_have_uuid_form() {
    let mut repo = Repository::new();
    let c = repo.create_conversation("t", rnd(8), 1008).unwrap();
    assert_eq!(c.id.len(), 36);
    assert_eq!(c.id, "08080808-0808-4808-8808-080808080808");
    assert_eq!((c.created_at, c.updated_at), (1008, 1008));
    assert_eq!(gpt_copy_v9::repository::new_id([0u8; 16]), "00000000-0000-4000-8000-000000000000");
    // The same bytes give the same id, which is then taken.
    assert!(repo.create_conversation("again", rnd(8), 1009).is_err());
}

#[test]
fn deleting_a_new_conversation_restores_the_store() {
    let mut repo = Repository::new();
    repo.create_conversation_with("a", "A", 1).unwrap();
    repo.create_message_with("m", "a", "user", "x", 2).unwrap();
    let before: Vec<(String, i64)> = repo.list_conversations().into_iter().map(|c| (c.id, c.updated_at)).collect();
    repo.create_conversation_with("b", "B", 1).unwrap();
    repo.delete_conversation("b").unwrap();
    let after: Vec<(String, i64)> = repo.list_conversations().into_iter().map(|c| (c.id, c.updated_at)).collect();
    assert_eq!(before, after);
    assert_eq!(repo.list_messages("a").len(), 1);
}
