use vstd::prelude::*;

verus! {

/// A registered user of the store. Times are milliseconds since the Unix epoch.
#[derive(Debug, Clone)]
pub struct User {
    id: u64,
    username: String,
    email: String,
    created_at: u64,
    last_login: Option<u64>,
    permissions: Vec<String>,
}

/// The mathematical content of a [`User`].
pub struct UserView {
    pub id: u64,
    pub username: Seq<char>,
    pub email: Seq<char>,
    pub created_at: u64,
    pub last_login: Option<u64>,
    pub permissions: Set<Seq<char>>,
}

impl View for User {
    type V = UserView;

    closed spec fn view(&self) -> UserView {
        UserView {
            id: self.id,
            username: self.username@,
            email: self.email@,
            created_at: self.created_at,
            last_login: self.last_login,
            permissions: Set::new(
                |p: Seq<char>| exists|i: int| 0 <= i < self.permissions@.len() && #[trigger] self.permissions@[i]@ == p,
            ),
        }
    }
}

impl User {
    /// A user who has never logged in and holds no permission.
    pub fn new(id: u64, username: &str, email: &str, created_at: u64) -> (r: User)
        ensures
            r@.id == id,
            r@.username == username@,
            r@.email == email@,
            r@.created_at == created_at,
            r@.last_login is None,
            r@.permissions == Set::<Seq<char>>::empty(),
    {
        let r = User {
            id,
            username: username.to_string(),
            email: email.to_string(),
            created_at,
            last_login: None,
            permissions: Vec::new(),
        };
        assert(r@.permissions =~= Set::<Seq<char>>::empty());
        r
    }

    pub fn id(&self) -> (r: u64)
        ensures
            r == self@.id,
    {
        self.id
    }

    pub fn username(&self) -> (r: &str)
        ensures
            r@ == self@.username,
    {
        self.username.as_str()
    }

    pub fn email(&self) -> (r: &str)
        ensures
            r@ == self@.email,
    {
        self.email.as_str()
    }

    pub fn created_at(&self) -> (r: u64)
        ensures
            r == self@.created_at,
    {
        self.created_at
    }

    pub fn last_login(&self) -> (r: Option<u64>)
        ensures
            r == self@.last_login,
    {
        self.last_login
    }

    /// Grants `permission`; granting one already held changes nothing.
    pub fn add_permission(&mut self, permission: &str)
        ensures
            final(self)@ == (UserView {
                permissions: old(self)@.permissions.insert(permission@),
                ..old(self)@
            }),
    {
        if !self.has_permission(permission) {
            self.permissions.push(permission.to_string());
        }
        assert(self@.permissions =~= old(self)@.permissions.insert(permission@)) by {
            if old(self)@.permissions.contains(permission@) {
                assert(self.permissions@ == old(self).permissions@);
            } else {
                let n = old(self).permissions@.len();
                assert(self.permissions@[n as int]@ == permission@);
                assert forall|p: Seq<char>| #[trigger] self@.permissions.contains(p) <==> old(self)@.permissions.insert(permission@).contains(p) by {
                    if old(self)@.permissions.contains(p) {
                        let i = choose|i: int| 0 <= i < old(self).permissions@.len() && #[trigger] old(self).permissions@[i]@ == p;
                        assert(self.permissions@[i]@ == p);
                    }
                }
            }
        }
    }

    /// Whether `permission` has been granted.
    pub fn has_permission(&self, permission: &str) -> (r: bool)
        ensures
            r == self@.permissions.contains(permission@),
    {
        let wanted = permission.to_string();
        let mut i: usize = 0;
        while i < self.permissions.len()
            invariant
                i <= self.permissions@.len(),
                wanted@ == permission@,
                forall|j: int| 0 <= j < i ==> self.permissions@[j]@ != permission@,
            decreases self.permissions@.len() - i,
        {
            if self.permissions[i] == wanted {
                return true;
            }
            i += 1;
        }
        false
    }

    /// Records a login at time `now`.
    pub fn login(&mut self, now: u64)
        ensures
            final(self)@ == (UserView { last_login: Some(now), ..old(self)@ }),
    {
        self.last_login = Some(now);
    }

    /// Whether this user's name is `name`.
    pub fn has_username(&self, name: &String) -> (r: bool)
        ensures
            r == (self@.username == name@),
    {
        self.username == *name
    }

    /// Whether this user's email is `email`.
    pub fn has_email(&self, email: &String) -> (r: bool)
        ensures
            r == (self@.email == email@),
    {
        self.email == *email
    }

    /// An independent copy of this user.
    pub fn snapshot(&self) -> (r: User)
        ensures
            r@ == self@,
    {
        User {
            id: self.id,
            username: self.username.clone(),
            email: self.email.clone(),
            created_at: self.created_at,
            last_login: self.last_login,
            permissions: self.permissions.clone(),
        }
    }
}

} // verus!
