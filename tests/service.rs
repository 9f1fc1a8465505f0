use message_hub::error::{AppError, InputError};
use message_hub::service::{share, MessageProcessor, MessageService};
use message_hub::store::Database;

#[test]
fn service_registers_sends_lists_and_logs_in() {
    let db = share(Database::new());
    let service = MessageService::new(db.clone());
    let alice = service.register_user("alice", "alice@example.com").unwrap();
    let bob = service.register_user("bob", "bob@example.com").unwrap();
    assert_eq!((alice.id(), bob.id()), (1, 2));
    assert!(alice.created_at() > 0);
    assert_eq!(
        service.register_user("alice", "x@example.com").unwrap_err(),
        AppError::InvalidInput(InputError::UsernameTaken)
    );
    assert_eq!(service.send_message(alice.id(), Some(bob.id()), "Hello Bob!").unwrap(), 1);
    assert_eq!(service.send_message(bob.id(), Some(alice.id()), "Hi Alice!").unwrap(), 2);
    assert_eq!(
        service.send_message(bob.id(), Some(9), "?").unwrap_err(),
        AppError::InvalidInput(InputError::UnknownRecipient)
    );
    service.login_user(alice.id()).unwrap();
    assert_eq!(service.login_user(9).unwrap_err(), AppError::InvalidInput(InputError::UnknownUser));
    let for_alice = service.get_user_messages(alice.id()).unwrap();
    assert_eq!(for_alice.len(), 2);
    assert_eq!(for_alice[0].content, "Hello Bob!");
    assert_eq!(for_alice[1].content, "Hi Alice!");
    assert_eq!(
        service.get_user_messages(3).unwrap_err(),
        AppError::InvalidInput(InputError::UnknownUser)
    );
}

#[test]
fn two_services_share_one_store() {
    let db = share(Database::new());
    let first = MessageService::new(db.clone());
    let second = MessageService::new(db);
    first.register_user("alice", "alice@example.com").unwrap();
    let bob = second.register_user("bob", "bob@example.com").unwrap();
    assert_eq!(bob.id(), 2);
    assert_eq!(
        second.register_user("alice", "a2@example.com").unwrap_err(),
        AppError::InvalidInput(InputError::UsernameTaken)
    );
}

#[test]
fn processor_delivers_pending_messages_and_stops() {
    let db = share(Database::new());
    let service = MessageService::new(db.clone());
    let a = service.register_user("a", "a@x").unwrap().id();
    let b = service.register_user("b", "b@x").unwrap().id();
    service.send_message(a, Some(b), "1").unwrap();
    service.send_message(b, Some(a), "2").unwrap();
    service.send_message(a, None, "3").unwrap();
    let processor = MessageProcessor::new(db);
    assert!(processor.is_running());
    assert_eq!(processor.run_cycle(), 3);
    processor.stop();
    assert!(!processor.is_running());
    assert_eq!(processor.run_cycle(), 0);
    let messages = service.get_user_messages(a).unwrap();
    let ids: Vec<u64> = messages.iter().map(|m| m.id).collect();
    assert_eq!(ids, vec![1, 2, 3]);
    assert!(messages.iter().all(|m| m.delivered));
}

#[test]
fn processor_clone_shares_the_running_flag() {
    let processor = MessageProcessor::new(share(Database::new()));
    let handle = processor.clone();
    handle.stop();
    assert!(!processor.is_running());
}

#[test]
fn records_present_when_shared_stay_usable() {
    let mut db = Database::new();
    db.add_user("alice", "alice@example.com", 1).unwrap();
    db.add_user("bob", "bob@example.com", 2).unwrap();
    db.add_message(1, Some(2), "before sharing", 3).unwrap();
    let service = MessageService::new(share(db));
    assert_eq!(service.login_user(2), Ok(()));
    assert_eq!(
        service.register_user("alice", "new@example.com").unwrap_err(),
        AppError::InvalidInput(InputError::UsernameTaken)
    );
    let id = service.send_message(2, Some(1), "after sharing").unwrap();
    assert_eq!(id, 2);
    let for_bob = service.get_user_messages(2).unwrap();
    assert_eq!(for_bob.len(), 2);
    assert_eq!(for_bob[0].content, "before sharing");
    assert_eq!(for_bob[1].content, "after sharing");
}
