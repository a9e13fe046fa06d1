use gpt_copy_v9::repository::Repository;
use gpt_copy_v9::routes::conversations::{
    create_conversation, update_conversation, CreateConversationRequest, UpdateConversationRequest,
};

fn create(repo: &mut Repository, title: &str, k: u8) -> String {
    create_conversation(repo, CreateConversationRequest { title: Some(title.to_string()) }, [k; 16], 1000 + k as i64)
        .unwrap()
        .id
}

#[test]
fn test_list_conversations_empty() {
    let repo = Repository::new();
    assert!(repo.list_conversations().is_empty());
}

#[test]
fn test_create_conversation() {
    let mut repo = Repository::new();
    let conv = create_conversation(
        &mut repo,
        CreateConversationRequest { title: Some("My Chat".to_string()) }, [6; 16], 1006)
    .unwrap();
    assert_eq!(conv.title, "My Chat");
    assert!(!conv.id.is_empty());
}

#[test]
fn api_conversations_test_get_conversation_not_found() {
    let repo = Repository::new();
    let err = repo.get_conversation("nonexistent").unwrap_err();
    assert_eq!(err.status(), 404);
    assert_eq!(err.code(), "NOT_FOUND");
}

#[test]
fn api_conversations_test_update_conversation() {
    let mut repo = Repository::new();
    let id = create(&mut repo, "Original", 1);
    let conv = update_conversation(
        &mut repo,
        &id,
        UpdateConversationRequest { title: Some("Updated".to_string()) }, 1009)
    .unwrap();
    assert_eq!(conv.title, "Updated");
}

#[test]
fn api_conversations_test_delete_conversation() {
    let mut repo = Repository::new();
    let id = create(&mut repo, "To Delete", 2);
    assert!(repo.delete_conversation(&id).is_ok());
    assert_eq!(repo.get_conversation(&id).unwrap_err().status(), 404);
}

#[test]
fn test_create_conversation_default_title() {
    let mut repo = Repository::new();
    let conv = create_conversation(&mut repo, CreateConversationRequest { title: None }, [7; 16], 1007).unwrap();
    assert_eq!(conv.title, "New Chat");
}

#[test]
fn test_list_conversations_ordered() {
    let mut repo = Repository::new();
    create(&mut repo, "First", 3);
    create(&mut repo, "Second", 4);
    let arr = repo.list_conversations();
    assert_eq!(arr.len(), 2);
    assert_eq!(arr[0].title, "Second");
    assert_eq!(arr[1].title, "First");
}

#[test]
fn create_with_blank_title_is_a_bad_request() {
    let mut repo = Repository::new();
    let err = create_conversation(&mut repo, CreateConversationRequest { title: Some("  ".to_string()) }, [8; 16], 1008)
        .unwrap_err();
    assert_eq!(err.status(), 400);
    assert_eq!(err.code(), "BAD_REQUEST");
    assert_eq!(err.public_message(), "Conversation title cannot be blank");
    assert!(repo.list_conversations().is_empty());
}

#[test]
fn update_needs_a_title() {
    let mut repo = Repository::new();
    let id = create(&mut repo, "Original", 5);
    let err = update_conversation(&mut repo, &id, UpdateConversationRequest { title: None }, 1010).unwrap_err();
    assert_eq!(err.public_message(), "Conversation title is required");
    let err = update_conversation(
        &mut repo,
        "nope",
        UpdateConversationRequest { title: Some("x".to_string()) }, 1011)
    .unwrap_err();
    assert_eq!(err.code(), "NOT_FOUND");
    assert_eq!(err.public_message(), "Conversation nope not found");
}
