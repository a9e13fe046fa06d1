use gpt_copy_v9::repository::Repository;
use gpt_copy_v9::routes::conversations::{create_conversation, CreateConversationRequest};
use gpt_copy_v9::routes::messages::{create_message, delete_message, list_messages, CreateMessageRequest};

fn create_conv(repo: &mut Repository, title: &str) -> String {
    create_conversation(repo, CreateConversationRequest { title: Some(title.to_string()) }, [1; 16], 1)
        .unwrap()
        .id
}

#[test]
fn test_list_messages_empty() {
    let mut repo = Repository::new();
    let id = create_conv(&mut repo, "Chat");
    assert!(list_messages(&repo, &id).unwrap().is_empty());
}

#[test]
fn test_create_message() {
    let mut repo = Repository::new();
    let id = create_conv(&mut repo, "Chat");
    let msg = create_message(&mut repo, &id, CreateMessageRequest { content: "Hello".to_string() }, [101; 16], 1001).unwrap();
    assert_eq!(msg.role, "user");
    assert_eq!(msg.content, "Hello");
}

#[test]
fn test_create_message_empty_content() {
    let mut repo = Repository::new();
    let id = create_conv(&mut repo, "Chat");
    let err = create_message(&mut repo, &id, CreateMessageRequest { content: "   ".to_string() }, [102; 16], 1002).unwrap_err();
    assert_eq!(err.status(), 400);
    assert_eq!(err.code(), "BAD_REQUEST");
}

#[test]
fn test_list_messages_for_unknown_conversation() {
    let repo = Repository::new();
    assert_eq!(list_messages(&repo, "nonexistent").unwrap_err().status(), 404);
}

#[test]
fn api_messages_test_delete_message() {
    let mut repo = Repository::new();
    let id = create_conv(&mut repo, "Chat");
    let msg = create_message(&mut repo, &id, CreateMessageRequest { content: "Hello".to_string() }, [103; 16], 1003).unwrap();
    assert!(delete_message(&mut repo, &id, &msg.id).is_ok());
    assert!(list_messages(&repo, &id).unwrap().is_empty());
}

#[test]
fn message_routes_check_the_conversation() {
    let mut repo = Repository::new();
    let err = create_message(&mut repo, "nope", CreateMessageRequest { content: "Hi".to_string() }, [104; 16], 1004).unwrap_err();
    assert_eq!(err.public_message(), "Conversation nope not found");
    let err = delete_message(&mut repo, "nope", "m").unwrap_err();
    assert_eq!(err.public_message(), "Conversation nope not found");
    let id = create_conv(&mut repo, "Chat");
    let err = delete_message(&mut repo, &id, "m").unwrap_err();
    assert_eq!(err.public_message(), "Message m not found");
}
