use std::sync::Arc;
use vstd::prelude::*;
use vstd::rwlock::{RwLock, RwLockPredicate};

use crate::error::{AppError, InputError};
use crate::store::{
    lemma_extends_trans, lemma_messages_involving_kept, message_views, messages_involving,
    messages_kept, undelivered_count, Database, DatabaseView, Message, MessageView,
};
use crate::user::User;

verus! {

/// The invariant that every holder of a shared store's lock must restore
/// before releasing it: the store is well formed, and still holds every user
/// and message that it held when it was shared (see [`DatabaseView::extends`]).
pub struct StoreInvariant {
    /// The store's content when it was put behind the lock.
    pub shared_from: DatabaseView,
}

impl RwLockPredicate<Database> for StoreInvariant {
    open spec fn inv(self, db: Database) -> bool {
        self.shared_from.wf() && db.wf() && db@.extends(self.shared_from)
    }
}

/// The running flag of a processor; any value is allowed.
pub struct AnyFlag;

impl RwLockPredicate<bool> for AnyFlag {
    open spec fn inv(self, b: bool) -> bool {
        true
    }
}

/// A store behind its single lock. Every read and write of the store goes
/// through this lock, and each operation holds it for its whole duration.
pub type SharedDatabase = Arc<RwLock<Database, StoreInvariant>>;

/// Puts `db` behind a lock, to be shared by services and processors.
pub fn share(db: Database) -> (r: SharedDatabase)
    requires
        db.wf(),
    ensures
        r.pred().shared_from == db@,
{
    let ghost content = db@;
    assert(db@.extends(content)) by {
        assert(messages_kept(content.messages, db@.messages));
    }
    Arc::new(RwLock::new(db, Ghost(StoreInvariant { shared_from: content })))
}

/// Relies on std::time::SystemTime::now, for the current time in milliseconds
/// since the Unix epoch (0 for a clock set before it). Nothing is assumed of the value.
#[verifier::external_body]
fn now_millis() -> u64 {
    match std::time::SystemTime::now().duration_since(std::time::UNIX_EPOCH) {
        Ok(d) => d.as_millis() as u64,
        Err(_) => 0,
    }
}

/// The copies of `ms`, as values.
pub open spec fn owned_views(ms: Seq<Message>) -> Seq<MessageView> {
    ms.map_values(|m: Message| m@)
}

/// What registering `username` with `email` returns when the store is `db`.
pub open spec fn register_outcome(db: DatabaseView, username: Seq<char>, email: Seq<char>, r: Result<User, AppError>) -> bool {
    match db.add_user_error(username, email) {
        Some(e) => r == Err::<User, AppError>(e),
        None => r matches Ok(u) && u@.id == db.next_user_id && u@.username == username && u@.email
            == email && u@.last_login is None && u@.permissions == Set::<Seq<char>>::empty(),
    }
}

/// What sending a message from `sender` to `recipient` returns when the store is `db`.
pub open spec fn send_outcome(db: DatabaseView, sender: u64, recipient: Option<u64>, r: Result<u64, AppError>) -> bool {
    match db.add_message_error(sender, recipient) {
        Some(e) => r == Err::<u64, AppError>(e),
        None => r == Ok::<u64, AppError>(db.next_message_id),
    }
}

/// What listing the messages of `user_id` returns when the store is `db`.
pub open spec fn listing_outcome(db: DatabaseView, user_id: u64, r: Result<Vec<Message>, AppError>) -> bool {
    if db.has_user(user_id) {
        r matches Ok(ms) && owned_views(ms@) == messages_involving(db.messages, user_id)
    } else {
        r == Err::<Vec<Message>, AppError>(AppError::InvalidInput(InputError::UnknownUser))
    }
}

/// What logging in `user_id` returns when the store is `db`.
pub open spec fn login_outcome(db: DatabaseView, user_id: u64, r: Result<(), AppError>) -> bool {
    if db.has_user(user_id) {
        r == Ok::<(), AppError>(())
    } else {
        r == Err::<(), AppError>(AppError::InvalidInput(InputError::UnknownUser))
    }
}

/// The operations of the application, each made atomically on a shared store.
/// Each contract says that the call took effect on some well-formed state of
/// the store that still holds every record the store held when it was shared,
/// and returned what the store's own operation returns there; and what follows
/// from that for users and messages that were there when it was shared.
#[derive(Clone)]
pub struct MessageService {
    db: SharedDatabase,
}

impl MessageService {
    /// The store handle this service works on.
    pub closed spec fn store(&self) -> SharedDatabase {
        self.db
    }

    /// The store's content when it was shared: all of it is still there.
    pub open spec fn shared_from(&self) -> DatabaseView {
        self.store().pred().shared_from
    }

    /// A service working on the store behind `db`.
    pub fn new(db: SharedDatabase) -> (r: MessageService)
        ensures
            r.store() == db,
    {
        MessageService { db }
    }

    pub fn register_user(&self, username: &str, email: &str) -> (r: Result<User, AppError>)
        ensures
            exists|db: DatabaseView| db.wf() && db.extends(self.shared_from()) && register_outcome(db, username@, email@, r),
            username@.len() > 0 && email@.contains('@') && self.shared_from().username_taken(username@)
                ==> r == Err::<User, AppError>(AppError::InvalidInput(InputError::UsernameTaken)),
            r matches Ok(u) ==> u@.id >= self.shared_from().next_user_id,
    {
        let now = now_millis();
        let (mut db, handle) = self.db.acquire_write();
        let ghost before = db@;
        proof {
            let base = self.shared_from();
            if base.username_taken(username@) {
                let i = choose|i: int| 0 <= i < base.users.len() && #[trigger] base.users[i].username == username@;
                assert(before.users[i].username == username@);
            }
        }
        let r = db.add_user(username, email, now);
        handle.release_write(db);
        assert(register_outcome(before, username@, email@, r));
        r
    }

    pub fn send_message(&self, sender_id: u64, recipient_id: Option<u64>, content: &str) -> (r: Result<u64, AppError>)
        ensures
            exists|db: DatabaseView| db.wf() && db.extends(self.shared_from()) && send_outcome(db, sender_id, recipient_id, r),
            self.shared_from().has_user(sender_id) && (recipient_id matches Some(x) ==> self.shared_from().has_user(x))
                ==> r is Ok || r == Err::<u64, AppError>(AppError::IdsExhausted),
            r matches Ok(id) ==> id >= self.shared_from().next_message_id,
    {
        let now = now_millis();
        let (mut db, handle) = self.db.acquire_write();
        let ghost before = db@;
        let r = db.add_message(sender_id, recipient_id, content, now);
        handle.release_write(db);
        assert(send_outcome(before, sender_id, recipient_id, r));
        r
    }

    pub fn get_user_messages(&self, user_id: u64) -> (r: Result<Vec<Message>, AppError>)
        ensures
            exists|db: DatabaseView| db.wf() && db.extends(self.shared_from()) && listing_outcome(db, user_id, r),
            r is Err ==> r == Err::<Vec<Message>, AppError>(AppError::InvalidInput(InputError::UnknownUser)),
            self.shared_from().has_user(user_id) ==> (r matches Ok(v) && messages_kept(
                messages_involving(self.shared_from().messages, user_id),
                owned_views(v@),
            )),
    {
        let handle = self.db.acquire_read();
        let db = handle.borrow();
        let ghost before = db@;
        if db.get_user(user_id).is_none() {
            handle.release_read();
            assert(listing_outcome(before, user_id, Err(AppError::InvalidInput(InputError::UnknownUser))));
            return Err(AppError::InvalidInput(InputError::UnknownUser));
        }
        proof {
            lemma_messages_involving_kept(self.shared_from().messages, before.messages, user_id);
        }
        let found = db.get_messages_for_user(user_id);
        let mut copies: Vec<Message> = Vec::new();
        let mut i: usize = 0;
        while i < found.len()
            invariant
                i <= found@.len(),
                owned_views(copies@) == message_views(found@).subrange(0, i as int),
            decreases found@.len() - i,
        {
            let copy = found[i].snapshot();
            assert(copy@ == message_views(found@)[i as int]);
            let ghost prev = copies@;
            copies.push(copy);
            assert(owned_views(copies@) =~= owned_views(prev).push(copy@));
            i += 1;
            assert(owned_views(copies@) =~= message_views(found@).subrange(0, i as int));
        }
        handle.release_read();
        assert(owned_views(copies@) =~= message_views(found@));
        let r = Ok(copies);
        assert(listing_outcome(before, user_id, r));
        r
    }

    pub fn login_user(&self, user_id: u64) -> (r: Result<(), AppError>)
        ensures
            exists|db: DatabaseView| db.wf() && db.extends(self.shared_from()) && login_outcome(db, user_id, r),
            r is Err ==> r == Err::<(), AppError>(AppError::InvalidInput(InputError::UnknownUser)),
            self.shared_from().has_user(user_id) ==> r == Ok::<(), AppError>(()),
    {
        let now = now_millis();
        let (mut db, handle) = self.db.acquire_write();
        let ghost before = db@;
        let r = match db.get_user_mut(user_id) {
            Some(user) => {
                user.login(now);
                Ok(())
            },
            None => Err(AppError::InvalidInput(InputError::UnknownUser)),
        };
        assert(db.wf());
        handle.release_write(db);
        assert(login_outcome(before, user_id, r));
        r
    }
}

/// The background maintenance loop's state: a handle on the store and a
/// running flag. The loop itself, with its sleeps, belongs to the caller:
/// while [`MessageProcessor::is_running`] it calls [`MessageProcessor::run_cycle`]
/// and then waits one poll interval. The store's lock is held only during a cycle.
#[derive(Clone)]
pub struct MessageProcessor {
    db: SharedDatabase,
    running: Arc<RwLock<bool, AnyFlag>>,
}

impl MessageProcessor {
    /// The store handle this processor maintains.
    pub closed spec fn store(&self) -> SharedDatabase {
        self.db
    }

    /// The store's content when it was shared: all of it is still there.
    pub open spec fn shared_from(&self) -> DatabaseView {
        self.store().pred().shared_from
    }

    /// A processor bound to `db`, in the running state.
    pub fn new(db: SharedDatabase) -> (r: MessageProcessor)
        ensures
            r.store() == db,
    {
        MessageProcessor { db, running: Arc::new(RwLock::new(true, Ghost(AnyFlag))) }
    }

    /// Asks the loop to stop; it observes the request before its next cycle.
    pub fn stop(&self) {
        let (_, handle) = self.running.acquire_write();
        handle.release_write(false);
    }

    /// Whether the loop should run another cycle.
    pub fn is_running(&self) -> (r: bool) {
        let handle = self.running.acquire_read();
        let r = *handle.borrow();
        handle.release_read();
        r
    }

    /// One maintenance pass, under the store's lock: marks every undelivered
    /// message delivered and returns how many there were.
    pub fn run_cycle(&self) -> (r: usize)
        ensures
            exists|db: DatabaseView| db.wf() && db.extends(self.shared_from()) && r == undelivered_count(db.messages),
    {
        let (mut db, handle) = self.db.acquire_write();
        let ghost before = db@;
        let r = db.deliver_pending();
        handle.release_write(db);
        assert(r == undelivered_count(before.messages));
        r
    }
}

} // verus!
