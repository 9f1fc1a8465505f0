use message_hub::error::{AppError, InputError};
use message_hub::store::Database;

fn invalid(e: InputError) -> AppError {
    AppError::InvalidInput(e)
}

#[test]
fn first_user_gets_id_one_and_duplicates_are_rejected() {
    let mut db = Database::new();
    let alice = db.add_user("alice", "alice@example.com", 10).unwrap();
    assert_eq!(alice.id(), 1);
    assert_eq!(alice.username(), "alice");
    assert_eq!(alice.email(), "alice@example.com");
    assert_eq!(alice.created_at(), 10);
    assert_eq!(alice.last_login(), None);
    let dup = db.add_user("alice", "other@example.com", 11);
    assert_eq!(dup.unwrap_err(), invalid(InputError::UsernameTaken));
    let bad = db.add_user("bob", "not-an-email", 12);
    assert_eq!(bad.unwrap_err(), invalid(InputError::InvalidEmail));
}

#[test]
fn empty_username_is_rejected() {
    let mut db = Database::new();
    assert_eq!(db.add_user("", "x@y", 0).unwrap_err(), invalid(InputError::EmptyUsername));
    assert!(db.get_user(1).is_none());
}

#[test]
fn duplicate_email_is_rejected() {
    let mut db = Database::new();
    db.add_user("alice", "a@example.com", 0).unwrap();
    let r = db.add_user("carol", "a@example.com", 0);
    assert_eq!(r.unwrap_err(), invalid(InputError::EmailTaken));
    let carol = db.add_user("carol", "c@example.com", 0).unwrap();
    assert_eq!(carol.id(), 2);
}

#[test]
fn username_check_comes_before_email_check() {
    let mut db = Database::new();
    db.add_user("alice", "a@example.com", 0).unwrap();
    db.add_user("bob", "b@example.com", 0).unwrap();
    let r = db.add_user("bob", "a@example.com", 0);
    assert_eq!(r.unwrap_err(), invalid(InputError::UsernameTaken));
}

#[test]
fn identities_increase_and_are_not_reused_after_rejections() {
    let mut db = Database::new();
    let a = db.add_user("a", "a@x", 0).unwrap();
    assert!(db.add_user("a", "z@x", 0).is_err());
    let b = db.add_user("b", "b@x", 0).unwrap();
    let c = db.add_user("c", "c@x", 0).unwrap();
    assert_eq!((a.id(), b.id(), c.id()), (1, 2, 3));
    assert_eq!(db.get_user(2).unwrap().username(), "b");
    assert!(db.get_user(0).is_none());
    assert!(db.get_user(4).is_none());
}

#[test]
fn message_to_unknown_recipient_fails_until_registered() {
    let mut db = Database::new();
    db.add_user("alice", "alice@example.com", 0).unwrap();
    let r = db.add_message(1, Some(2), "hi", 1);
    assert_eq!(r.unwrap_err(), invalid(InputError::UnknownRecipient));
    db.add_user("bob", "bob@example.com", 2).unwrap();
    let id = db.add_message(1, Some(2), "hi", 3).unwrap();
    assert_eq!(id, 1);
    let id2 = db.add_message(2, None, "broadcast", 4).unwrap();
    assert_eq!(id2, 2);
}

#[test]
fn message_from_unknown_sender_fails() {
    let mut db = Database::new();
    assert_eq!(db.add_message(1, None, "x", 0).unwrap_err(), invalid(InputError::UnknownSender));
    db.add_user("alice", "alice@example.com", 0).unwrap();
    assert_eq!(db.add_message(7, Some(1), "x", 0).unwrap_err(), invalid(InputError::UnknownSender));
}

#[test]
fn messages_for_user_are_those_sent_or_received_in_storage_order() {
    let mut db = Database::new();
    db.add_user("a", "a@x", 0).unwrap();
    db.add_user("b", "b@x", 0).unwrap();
    db.add_user("c", "c@x", 0).unwrap();
    db.add_message(1, Some(2), "a to b", 1).unwrap();
    db.add_message(2, Some(3), "b to c", 2).unwrap();
    db.add_message(3, None, "c to all", 3).unwrap();
    db.add_message(3, Some(1), "c to a", 4).unwrap();
    db.add_message(2, Some(1), "b to a", 5).unwrap();
    let for_a: Vec<u64> = db.get_messages_for_user(1).iter().map(|m| m.id).collect();
    assert_eq!(for_a, vec![1, 4, 5]);
    let for_c: Vec<u64> = db.get_messages_for_user(3).iter().map(|m| m.id).collect();
    assert_eq!(for_c, vec![2, 3, 4]);
    let first = db.get_messages_for_user(2)[0];
    assert_eq!(first.content, "a to b");
    assert_eq!(first.sender_id, 1);
    assert_eq!(first.recipient_id, Some(2));
    assert_eq!(first.timestamp, 1);
    assert!(!first.is_read);
    assert!(!first.delivered);
    assert!(db.get_messages_for_user(9).is_empty());
}

#[test]
fn login_through_mutable_access_records_the_time() {
    let mut db = Database::new();
    db.add_user("alice", "alice@example.com", 0).unwrap();
    db.get_user_mut(1).unwrap().login(42);
    assert_eq!(db.get_user(1).unwrap().last_login(), Some(42));
    assert!(db.get_user_mut(2).is_none());
}

#[test]
fn permissions_are_a_set() {
    let mut db = Database::new();
    db.add_user("alice", "alice@example.com", 0).unwrap();
    let user = db.get_user_mut(1).unwrap();
    assert!(!user.has_permission("admin"));
    user.add_permission("admin");
    user.add_permission("admin");
    user.add_permission("write");
    assert!(user.has_permission("admin"));
    assert!(user.has_permission("write"));
    assert!(!user.has_permission("read"));
    assert!(!user.has_permission("adm"));
}

#[test]
fn delivery_pass_marks_each_pending_message_once() {
    let mut db = Database::new();
    db.add_user("a", "a@x", 0).unwrap();
    db.add_message(1, None, "one", 0).unwrap();
    db.add_message(1, None, "two", 0).unwrap();
    assert_eq!(db.deliver_pending(), 2);
    db.add_message(1, None, "three", 0).unwrap();
    assert_eq!(db.deliver_pending(), 1);
    assert_eq!(db.deliver_pending(), 0);
    let all = db.get_messages_for_user(1);
    let ids: Vec<u64> = all.iter().map(|m| m.id).collect();
    assert_eq!(ids, vec![1, 2, 3]);
    assert!(all.iter().all(|m| m.delivered && !m.is_read));
    assert_eq!(all[2].content, "three");
}

#[test]
fn error_descriptions() {
    assert_eq!(InputError::UsernameTaken.description(), "Username already taken");
    assert_eq!(InputError::InvalidEmail.description(), "Invalid email format");
    assert_eq!(InputError::UnknownUser.description(), "User does not exist");
}
