use vstd::prelude::*;

use crate::error::{AppError, InputError};
use crate::user::{User, UserView};

verus! {

/// A message between users. Times are milliseconds since the Unix epoch.
#[derive(Debug, Clone)]
pub struct Message {
    pub id: u64,
    pub sender_id: u64,
    pub recipient_id: Option<u64>,
    pub content: String,
    pub timestamp: u64,
    pub is_read: bool,
    /// Set by the background processor once it has handled the message.
    pub delivered: bool,
}

/// The mathematical content of a [`Message`].
pub struct MessageView {
    pub id: u64,
    pub sender_id: u64,
    pub recipient_id: Option<u64>,
    pub content: Seq<char>,
    pub timestamp: u64,
    pub is_read: bool,
    pub delivered: bool,
}

impl View for Message {
    type V = MessageView;

    open spec fn view(&self) -> MessageView {
        MessageView {
            id: self.id,
            sender_id: self.sender_id,
            recipient_id: self.recipient_id,
            content: self.content@,
            timestamp: self.timestamp,
            is_read: self.is_read,
            delivered: self.delivered,
        }
    }
}

impl Message {
    /// An independent copy of this message.
    pub fn snapshot(&self) -> (r: Message)
        ensures
            r@ == self@,
    {
        Message {
            id: self.id,
            sender_id: self.sender_id,
            recipient_id: self.recipient_id,
            content: self.content.clone(),
            timestamp: self.timestamp,
            is_read: self.is_read,
            delivered: self.delivered,
        }
    }
}

/// Whether user `id` sent or receives message `m`.
pub open spec fn involves(m: MessageView, id: u64) -> bool {
    m.sender_id == id || m.recipient_id == Some(id)
}

/// The messages of `ms` that user `id` sent or receives, in storage order.
pub open spec fn messages_involving(ms: Seq<MessageView>, id: u64) -> Seq<MessageView> {
    ms.filter(involves_user(id))
}

/// [`involves`] as a predicate on messages.
pub open spec fn involves_user(id: u64) -> spec_fn(MessageView) -> bool {
    |m: MessageView| involves(m, id)
}

/// The views of the messages that `ms` refers to.
pub open spec fn message_views(ms: Seq<&Message>) -> Seq<MessageView> {
    ms.map_values(|m: &Message| m@)
}

/// The content of a [`Database`]: the user with identity `k` stands at index `k - 1`
/// of `users`, and likewise for messages.
pub struct DatabaseView {
    pub users: Seq<UserView>,
    pub messages: Seq<MessageView>,
    pub next_user_id: u64,
    pub next_message_id: u64,
}

impl DatabaseView {
    pub open spec fn has_user(self, id: u64) -> bool {
        1 <= id <= self.users.len()
    }

    pub open spec fn user(self, id: u64) -> UserView {
        self.users[id - 1]
    }

    pub open spec fn username_taken(self, name: Seq<char>) -> bool {
        exists|i: int| 0 <= i < self.users.len() && #[trigger] self.users[i].username == name
    }

    pub open spec fn email_taken(self, email: Seq<char>) -> bool {
        exists|i: int| 0 <= i < self.users.len() && #[trigger] self.users[i].email == email
    }

    /// Identities are dense and in storage order, usernames and emails are
    /// unique and valid, and every message names existing users.
    pub open spec fn wf(self) -> bool {
        &&& self.next_user_id == self.users.len() + 1
        &&& self.next_message_id == self.messages.len() + 1
        &&& forall|i: int| 0 <= i < self.users.len() ==> (#[trigger] self.users[i]).id == i + 1
        &&& forall|i: int|
            0 <= i < self.users.len() ==> (#[trigger] self.users[i]).username.len() > 0
                && self.users[i].email.contains('@')
        &&& forall|i: int, j: int|
            0 <= i < self.users.len() && 0 <= j < self.users.len() && i != j ==> {
                &&& (#[trigger] self.users[i]).username != (#[trigger] self.users[j]).username
                &&& self.users[i].email != self.users[j].email
            }
        &&& forall|i: int| 0 <= i < self.messages.len() ==> (#[trigger] self.messages[i]).id == i + 1
        &&& forall|i: int|
            0 <= i < self.messages.len() ==> {
                &&& self.has_user((#[trigger] self.messages[i]).sender_id)
                &&& (self.messages[i].recipient_id matches Some(r) ==> self.has_user(r))
            }
    }

    /// The rejection, if any, of registering `username` with `email`.
    pub open spec fn add_user_error(self, username: Seq<char>, email: Seq<char>) -> Option<AppError> {
        if username.len() == 0 {
            Some(AppError::InvalidInput(InputError::EmptyUsername))
        } else if !email.contains('@') {
            Some(AppError::InvalidInput(InputError::InvalidEmail))
        } else if self.username_taken(username) {
            Some(AppError::InvalidInput(InputError::UsernameTaken))
        } else if self.email_taken(email) {
            Some(AppError::InvalidInput(InputError::EmailTaken))
        } else if self.next_user_id == u64::MAX {
            Some(AppError::IdsExhausted)
        } else {
            None
        }
    }

    /// The rejection, if any, of storing a message from `sender` to `recipient`.
    pub open spec fn add_message_error(self, sender: u64, recipient: Option<u64>) -> Option<AppError> {
        if !self.has_user(sender) {
            Some(AppError::InvalidInput(InputError::UnknownSender))
        } else if recipient matches Some(r) && !self.has_user(r) {
            Some(AppError::InvalidInput(InputError::UnknownRecipient))
        } else if self.next_message_id == u64::MAX {
            Some(AppError::IdsExhausted)
        } else {
            None
        }
    }
}

/// Whether `s` holds the character `@`.
fn contains_at_sign(s: &str) -> (r: bool)
    ensures
        r == s@.contains('@'),
{
    for c in it: s.chars()
        invariant
            it.seq() == s@,
            forall|j: int| 0 <= j < it.index() ==> s@[j] != '@',
    {
        if c == '@' {
            return true;
        }
    }
    false
}

} // verus!

verus! {

/// The in-memory record store: users and messages, each with its identity counter.
pub struct Database {
    users: Vec<User>,
    messages: Vec<Message>,
    next_user_id: u64,
    next_message_id: u64,
}

impl View for Database {
    type V = DatabaseView;

    closed spec fn view(&self) -> DatabaseView {
        DatabaseView {
            users: self.users@.map_values(|u: User| u@),
            messages: self.messages@.map_values(|m: Message| m@),
            next_user_id: self.next_user_id,
            next_message_id: self.next_message_id,
        }
    }
}

impl Database {
    pub open spec fn wf(&self) -> bool {
        self@.wf()
    }

    /// An empty store whose first identities are 1.
    pub fn new() -> (r: Database)
        ensures
            r.wf(),
            r@.users.len() == 0,
            r@.messages.len() == 0,
    {
        let r = Database { users: Vec::new(), messages: Vec::new(), next_user_id: 1, next_message_id: 1 };
        assert(r@.users =~= Seq::<UserView>::empty());
        assert(r@.messages =~= Seq::<MessageView>::empty());
        r
    }

    /// Registers a user, or says why not. On success the new user has the next
    /// identity and is returned as a copy; on failure nothing changes.
    pub fn add_user(&mut self, username: &str, email: &str, now: u64) -> (r: Result<User, AppError>)
        requires
            old(self).wf(),
        ensures
            final(self).wf(),
            final(self)@.extends(old(self)@),
            match old(self)@.add_user_error(username@, email@) {
                Some(e) => r == Err::<User, AppError>(e) && final(self)@ == old(self)@,
                None => r matches Ok(u) && {
                    &&& u@ == (UserView {
                        id: old(self)@.next_user_id,
                        username: username@,
                        email: email@,
                        created_at: now,
                        last_login: None,
                        permissions: Set::empty(),
                    })
                    &&& final(self)@ == (DatabaseView {
                        users: old(self)@.users.push(u@),
                        next_user_id: (old(self)@.next_user_id + 1) as u64,
                        ..old(self)@
                    })
                },
            },
    {
        if username.is_empty() {
            return Err(AppError::InvalidInput(InputError::EmptyUsername));
        }
        if !contains_at_sign(email) {
            return Err(AppError::InvalidInput(InputError::InvalidEmail));
        }
        let name = username.to_string();
        if self.username_in_use(&name) {
            return Err(AppError::InvalidInput(InputError::UsernameTaken));
        }
        let mail = email.to_string();
        if self.email_in_use(&mail) {
            return Err(AppError::InvalidInput(InputError::EmailTaken));
        }
        if self.next_user_id == u64::MAX {
            return Err(AppError::IdsExhausted);
        }
        let id = self.next_user_id;
        self.next_user_id = id + 1;
        let user = User::new(id, username, email, now);
        self.users.push(user.snapshot());
        assert(self@.users =~= old(self)@.users.push(user@));
        Ok(user)
    }

    fn username_in_use(&self, name: &String) -> (r: bool)
        ensures
            r == self@.username_taken(name@),
    {
        let mut i: usize = 0;
        while i < self.users.len()
            invariant
                i <= self.users@.len(),
                forall|j: int| 0 <= j < i ==> self@.users[j].username != name@,
            decreases self.users@.len() - i,
        {
            if self.users[i].has_username(name) {
                assert(self@.users[i as int].username == name@);
                return true;
            }
            i += 1;
        }
        false
    }

    fn email_in_use(&self, email: &String) -> (r: bool)
        ensures
            r == self@.email_taken(email@),
    {
        let mut i: usize = 0;
        while i < self.users.len()
            invariant
                i <= self.users@.len(),
                forall|j: int| 0 <= j < i ==> self@.users[j].email != email@,
            decreases self.users@.len() - i,
        {
            if self.users[i].has_email(email) {
                assert(self@.users[i as int].email == email@);
                return true;
            }
            i += 1;
        }
        false
    }

    /// The user with identity `user_id`, if registered.
    pub fn get_user(&self, user_id: u64) -> (r: Option<&User>)
        requires
            self.wf(),
        ensures
            match r {
                Some(u) => self@.has_user(user_id) && u@ == self@.user(user_id),
                None => !self@.has_user(user_id),
            },
    {
        let n = self.users.len();
        if 1 <= user_id && user_id < self.next_user_id {
            assert(self@.users.len() == n);
            Some(&self.users[(user_id - 1) as usize])
        } else {
            None
        }
    }

    /// Mutable access to the user with identity `user_id`, if registered.
    pub fn get_user_mut(&mut self, user_id: u64) -> (r: Option<&mut User>)
        requires
            old(self).wf(),
        ensures
            match r {
                Some(u) => {
                    &&& old(self)@.has_user(user_id)
                    &&& u@ == old(self)@.user(user_id)
                    &&& final(self)@ == (DatabaseView {
                        users: old(self)@.users.update(user_id - 1, final(u)@),
                        ..old(self)@
                    })
                },
                None => !old(self)@.has_user(user_id) && final(self)@ == old(self)@,
            },
    {
        let n = self.users.len();
        if 1 <= user_id && user_id < self.next_user_id {
            assert(self@.users.len() == n);
            let r = &mut self.users[(user_id - 1) as usize];
            assert(after_borrow(self.users)@.map_values(|u: User| u@) =~= old(self)@.users.update(user_id - 1, final(r)@));
            Some(r)
        } else {
            None
        }
    }

    /// Stores a message, or says why not. On success the message has the next
    /// identity, is neither read nor delivered, and its identity is returned;
    /// on failure nothing changes.
    pub fn add_message(&mut self, sender_id: u64, recipient_id: Option<u64>, content: &str, now: u64) -> (r: Result<u64, AppError>)
        requires
            old(self).wf(),
        ensures
            final(self).wf(),
            final(self)@.extends(old(self)@),
            match old(self)@.add_message_error(sender_id, recipient_id) {
                Some(e) => r == Err::<u64, AppError>(e) && final(self)@ == old(self)@,
                None => {
                    &&& r == Ok::<u64, AppError>(old(self)@.next_message_id)
                    &&& final(self)@ == (DatabaseView {
                        messages: old(self)@.messages.push(MessageView {
                            id: old(self)@.next_message_id,
                            sender_id,
                            recipient_id,
                            content: content@,
                            timestamp: now,
                            is_read: false,
                            delivered: false,
                        }),
                        next_message_id: (old(self)@.next_message_id + 1) as u64,
                        ..old(self)@
                    })
                },
            },
    {
        if !(1 <= sender_id && sender_id < self.next_user_id) {
            return Err(AppError::InvalidInput(InputError::UnknownSender));
        }
        if let Some(recipient) = recipient_id {
            if !(1 <= recipient && recipient < self.next_user_id) {
                return Err(AppError::InvalidInput(InputError::UnknownRecipient));
            }
        }
        if self.next_message_id == u64::MAX {
            return Err(AppError::IdsExhausted);
        }
        let message_id = self.next_message_id;
        self.next_message_id = message_id + 1;
        let message = Message {
            id: message_id,
            sender_id,
            recipient_id,
            content: content.to_string(),
            timestamp: now,
            is_read: false,
            delivered: false,
        };
        self.messages.push(message);
        assert(self@.messages =~= old(self)@.messages.push(message@));
        Ok(message_id)
    }

    /// The messages that user `user_id` sent or receives, in storage order.
    pub fn get_messages_for_user(&self, user_id: u64) -> (r: Vec<&Message>)
        ensures
            message_views(r@) == messages_involving(self@.messages, user_id),
    {
        let ghost pred = involves_user(user_id);
        let mut r: Vec<&Message> = Vec::new();
        let mut i: usize = 0;
        assert(message_views(r@) =~= self@.messages.subrange(0, 0).filter(pred)) by {
            reveal(Seq::filter);
        }
        while i < self.messages.len()
            invariant
                i <= self.messages@.len(),
                pred == involves_user(user_id),
                message_views(r@) == self@.messages.subrange(0, i as int).filter(pred),
            decreases self.messages@.len() - i,
        {
            let m = &self.messages[i];
            let ghost prev = message_views(r@);
            let ghost s = self@.messages.subrange(0, i as int + 1);
            assert(s.drop_last() =~= self@.messages.subrange(0, i as int));
            assert(s.last() == m@);
            if m.recipient_id == Some(user_id) || m.sender_id == user_id {
                r.push(m);
                assert(message_views(r@) =~= prev.push(m@));
            }
            assert(s.filter(pred) == if pred(m@) { prev.push(m@) } else { prev }) by {
                reveal(Seq::filter);
            }
            i += 1;
        }
        assert(self@.messages.subrange(0, i as int) =~= self@.messages);
        r
    }

    /// Marks every undelivered message delivered and returns how many there were.
    /// No message is added, dropped or reordered, and nothing else changes.
    pub fn deliver_pending(&mut self) -> (r: usize)
        requires
            old(self).wf(),
        ensures
            final(self).wf(),
            final(self)@.extends(old(self)@),
            r == undelivered_count(old(self)@.messages),
            final(self)@ == (DatabaseView { messages: all_delivered(old(self)@.messages), ..old(self)@ }),
    {
        let mut count: usize = 0;
        let mut i: usize = 0;
        while i < self.messages.len()
            invariant
                i <= self.messages@.len(),
                self.messages@.len() == old(self).messages@.len(),
                self.users == old(self).users,
                self.next_user_id == old(self).next_user_id,
                self.next_message_id == old(self).next_message_id,
                count == undelivered_count(old(self)@.messages.subrange(0, i as int)),
                self@.messages.subrange(0, i as int) == all_delivered(old(self)@.messages.subrange(0, i as int)),
                self@.messages.subrange(i as int, self@.messages.len() as int)
                    == old(self)@.messages.subrange(i as int, old(self)@.messages.len() as int),
            decreases self.messages@.len() - i,
        {
            proof {
                let s = old(self)@.messages.subrange(0, i as int + 1);
                assert(s.drop_last() =~= old(self)@.messages.subrange(0, i as int));
                assert(s.last() == old(self)@.messages[i as int]);
                assert(old(self)@.messages[i as int] == self@.messages.subrange(i as int, self@.messages.len() as int)[0]);
                lemma_undelivered_count_bound(s);
            }
            let ghost before = self@.messages;
            if !self.messages[i].delivered {
                self.messages[i].delivered = true;
                count += 1;
            }
            assert(self@.messages =~= before.update(i as int, MessageView { delivered: true, ..before[i as int] }));
            i += 1;
            assert(self@.messages.subrange(0, i as int) =~= all_delivered(old(self)@.messages.subrange(0, i as int))) by {
                assert(self@.messages.subrange(0, i as int - 1) =~= before.subrange(0, i as int - 1));
            }
            assert(self@.messages.subrange(i as int, self@.messages.len() as int)
                =~= old(self)@.messages.subrange(i as int, old(self)@.messages.len() as int)) by {
                assert forall|j: int| i <= j < self@.messages.len() implies self@.messages[j] == old(self)@.messages[j] by {
                    assert(before[j] == before.subrange(i as int - 1, before.len() as int)[j - i + 1]);
                }
            }
        }
        assert(old(self)@.messages.subrange(0, i as int) =~= old(self)@.messages);
        assert(self@.messages =~= self@.messages.subrange(0, i as int));
        count
    }
}

/// The number of messages of `ms` not yet delivered.
pub open spec fn undelivered_count(ms: Seq<MessageView>) -> nat
    decreases ms.len(),
{
    if ms.len() == 0 {
        0
    } else {
        undelivered_count(ms.drop_last()) + if ms.last().delivered { 0nat } else { 1nat }
    }
}

/// `ms` with every message marked delivered.
pub open spec fn all_delivered(ms: Seq<MessageView>) -> Seq<MessageView> {
    ms.map_values(|m: MessageView| MessageView { delivered: true, ..m })
}

proof fn lemma_undelivered_count_bound(ms: Seq<MessageView>)
    ensures
        undelivered_count(ms) <= ms.len(),
    decreases ms.len(),
{
    if ms.len() > 0 {
        lemma_undelivered_count_bound(ms.drop_last());
    }
}

} // verus!

verus! {

/// In every well-formed store, user identities strictly increase in storage
/// order and stay below the next identity to be assigned, so none is ever
/// reused; and no two users share a username or an email.
pub proof fn lemma_users_unique(db: DatabaseView)
    requires
        db.wf(),
    ensures
        forall|i: int| 0 <= i < db.users.len() ==> (#[trigger] db.users[i]).id < db.next_user_id,
        forall|i: int, j: int|
            0 <= i < j < db.users.len() ==> {
                &&& (#[trigger] db.users[i]).id < (#[trigger] db.users[j]).id
                &&& db.users[i].username != db.users[j].username
                &&& db.users[i].email != db.users[j].email
            },
{
}

} // verus!

verus! {

/// `later` is the user `earlier` with at most its login time and permissions changed.
pub open spec fn same_user(earlier: UserView, later: UserView) -> bool {
    &&& later.id == earlier.id
    &&& later.username == earlier.username
    &&& later.email == earlier.email
    &&& later.created_at == earlier.created_at
}

/// `later` is the message `earlier` with at most its delivered flag changed.
pub open spec fn same_message(earlier: MessageView, later: MessageView) -> bool {
    later == MessageView { delivered: later.delivered, ..earlier }
}

/// Every message of `earlier` stands, in order and as [`same_message`], at the
/// front of `later`.
pub open spec fn messages_kept(earlier: Seq<MessageView>, later: Seq<MessageView>) -> bool {
    &&& earlier.len() <= later.len()
    &&& forall|i: int| 0 <= i < earlier.len() ==> same_message(earlier[i], #[trigger] later[i])
}

impl DatabaseView {
    /// Every user and message of `earlier` is still here, at the same place, as
    /// [`same_user`] and [`same_message`] say: records are only ever added, and
    /// only a user's login time and permissions and a message's delivered flag change.
    pub open spec fn extends(self, earlier: DatabaseView) -> bool {
        &&& earlier.users.len() <= self.users.len()
        &&& forall|i: int| 0 <= i < earlier.users.len() ==> same_user(earlier.users[i], #[trigger] self.users[i])
        &&& messages_kept(earlier.messages, self.messages)
    }
}

/// [`DatabaseView::extends`] is transitive.
pub proof fn lemma_extends_trans(a: DatabaseView, b: DatabaseView, c: DatabaseView)
    requires
        b.extends(a),
        c.extends(b),
    ensures
        c.extends(a),
{
    assert forall|i: int| 0 <= i < a.users.len() implies same_user(a.users[i], #[trigger] c.users[i]) by {
        assert(same_user(b.users[i], c.users[i]));
    }
    assert forall|i: int| 0 <= i < a.messages.len() implies same_message(a.messages[i], #[trigger] c.messages[i]) by {
        assert(same_message(b.messages[i], c.messages[i]));
    }
}

/// Keeping the messages of a store keeps, in order, the messages of each user.
pub proof fn lemma_messages_involving_kept(earlier: Seq<MessageView>, later: Seq<MessageView>, id: u64)
    requires
        messages_kept(earlier, later),
    ensures
        messages_kept(messages_involving(earlier, id), messages_involving(later, id)),
        earlier.len() == later.len() ==> messages_involving(earlier, id).len() == messages_involving(later, id).len(),
    decreases later.len(),
{
    reveal(Seq::filter);
    let fe = messages_involving(earlier, id);
    let fl = messages_involving(later, id);
    if later.len() > earlier.len() {
        let l2 = later.drop_last();
        lemma_messages_involving_kept(earlier, l2, id);
        let fl2 = messages_involving(l2, id);
        assert(fl == if involves(later.last(), id) { fl2.push(later.last()) } else { fl2 });
        assert forall|i: int| 0 <= i < fe.len() implies same_message(fe[i], #[trigger] fl[i]) by {
            assert(fl[i] == fl2[i]);
        }
    } else if later.len() > 0 {
        let e2 = earlier.drop_last();
        let l2 = later.drop_last();
        assert(same_message(earlier.last(), later.last()));
        assert forall|i: int| 0 <= i < e2.len() implies same_message(e2[i], #[trigger] l2[i]) by {
            assert(same_message(earlier[i], later[i]));
        }
        lemma_messages_involving_kept(e2, l2, id);
        let fe2 = messages_involving(e2, id);
        let fl2 = messages_involving(l2, id);
        assert(fe == if involves(earlier.last(), id) { fe2.push(earlier.last()) } else { fe2 });
        assert(fl == if involves(later.last(), id) { fl2.push(later.last()) } else { fl2 });
        assert forall|i: int| 0 <= i < fe.len() implies same_message(fe[i], #[trigger] fl[i]) by {
            if i < fe2.len() {
                assert(same_message(fe2[i], fl2[i]));
            }
        }
    } else {
        assert(fe.len() == 0);
    }
}

} // verus!
