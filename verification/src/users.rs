//! The in-memory user collection behind the user routes: validation,
//! identifier assignment and lookup. The surrounding HTTP layer holds
//! a store under its lock and hands requests through.

use vstd::prelude::*;

use crate::api::AppError;
use crate::payload::has_lit;

verus! {

/// A stored user; `id` is assigned by the store on creation.
pub struct User {
    pub id: Option<usize>,
    pub name: String,
    pub email: String,
    pub role: Option<String>,
}

/// What a user looks up as.
pub struct UserResponse {
    pub id: usize,
    pub name: String,
    pub email: String,
}

/// What an administrator sees of a user.
pub struct AdminUserResponse {
    pub id: usize,
    pub name: String,
    pub email: String,
    pub role: String,
    pub created_at: String,
    pub last_login: Option<String>,
}

/// Whether some stored user already uses this email address.
pub open spec fn email_taken(users: Seq<User>, email: Seq<char>) -> bool {
    exists|j: int| 0 <= j < users.len() && users[j].email@ == email
}

/// Whether the address holds an at sign somewhere.
pub open spec fn has_at_sign(s: Seq<char>) -> bool {
    exists|k: int| 0 <= k < s.len() && s[k] == '@'
}

/// A new user is accepted when its name and email are non-empty, the
/// email is shaped like one, and the address is not yet taken.
pub open spec fn acceptable(users: Seq<User>, name: Seq<char>, email: Seq<char>) -> bool {
    &&& name.len() > 0
    &&& email.len() > 0
    &&& has_at_sign(email)
    &&& !email_taken(users, email)
}

/// The user collection: users in creation order, identifiers assigned
/// as positions, starting from 1.
pub struct UserStore {
    users: Vec<User>,
}

impl View for UserStore {
    type V = Seq<User>;

    closed spec fn view(&self) -> Seq<User> {
        self.users@
    }
}

impl UserStore {
    /// The store assigns each user the identifier of its position.
    pub closed spec fn wf(&self) -> bool {
        forall|i: int| 0 <= i < self.users@.len() ==> (#[trigger] self.users@[i].id) == Some(
            (i + 1) as usize,
        )
    }

    /// An empty store.
    pub fn new() -> (r: UserStore)
        ensures
            r@.len() == 0,
            r.wf(),
    {
        UserStore { users: Vec::new() }
    }

    /// How many users are stored.
    pub fn len(&self) -> (r: usize)
        ensures
            r == self@.len(),
    {
        self.users.len()
    }

    /// Validates and stores a new user: rejected with the exact
    /// message of the first failing check, or stored under the next
    /// identifier and echoed back.
    pub fn create_user(&mut self, payload: User) -> (r: Result<UserResponse, AppError>)
        requires
            old(self).wf(),
            old(self)@.len() < usize::MAX,
        ensures
            final(self).wf(),
            match r {
                Ok(resp) => {
                    &&& acceptable(old(self)@, payload.name@, payload.email@)
                    &&& resp.id == old(self)@.len() + 1
                    &&& resp.name@ == payload.name@
                    &&& resp.email@ == payload.email@
                    &&& final(self)@.len() == old(self)@.len() + 1
                    &&& final(self)@ =~= old(self)@.push(
                        User {
                            id: Some((old(self)@.len() + 1) as usize),
                            name: payload.name,
                            email: payload.email,
                            role: None,
                        },
                    )
                },
                Err(e) => {
                    &&& !acceptable(old(self)@, payload.name@, payload.email@)
                    &&& final(self)@ == old(self)@
                    &&& e matches AppError::BadRequest(m)
                    &&& if payload.name@.len() == 0 {
                        m@ == ("Name cannot be empty")@
                    } else if payload.email@.len() == 0 {
                        m@ == ("Email cannot be empty")@
                    } else if !has_at_sign(payload.email@) {
                        m@ == ("Invalid email format")@
                    } else {
                        m@ == ("Email already in use")@
                    }
                },
            },
    {
        if payload.name.as_str().is_empty() {
            return Err(AppError::BadRequest(String::from_str("Name cannot be empty")));
        }
        if payload.email.as_str().is_empty() {
            return Err(AppError::BadRequest(String::from_str("Email cannot be empty")));
        }
        if !contains_at(payload.email.as_str()) {
            return Err(AppError::BadRequest(String::from_str("Invalid email format")));
        }
        let count = self.users.len();
        let mut j: usize = 0;
        while j < count
            invariant
                self@ == old(self)@,
                old(self).wf(),
                count == self.users@.len(),
                j <= count,
                payload.name@.len() > 0,
                payload.email@.len() > 0,
                has_at_sign(payload.email@),
                forall|k: int| 0 <= k < j ==> (#[trigger] self.users@[k].email@)
                    != payload.email@,
            decreases count - j,
        {
            if self.users[j].email == payload.email {
                return Err(AppError::BadRequest(String::from_str("Email already in use")));
            }
            j = j + 1;
        }
        let id = count + 1;
        let resp = UserResponse {
            id,
            name: payload.name.clone(),
            email: payload.email.clone(),
        };
        self.users.push(
            User { id: Some(id), name: payload.name, email: payload.email, role: None },
        );
        Ok(resp)
    }

    /// Looks a user up by identifier.
    pub fn get_user_by_id(&self, id: usize) -> (r: Result<UserResponse, AppError>)
        requires
            self.wf(),
        ensures
            match r {
                Ok(resp) => {
                    &&& 1 <= id <= self@.len()
                    &&& resp.id == id
                    &&& resp.name@ == self@[id - 1].name@
                    &&& resp.email@ == self@[id - 1].email@
                },
                Err(e) => (id < 1 || id > self@.len()) && e matches AppError::NotFound,
            },
    {
        if id >= 1 && id <= self.users.len() {
            let u = &self.users[id - 1];
            Ok(UserResponse { id, name: u.name.clone(), email: u.email.clone() })
        } else {
            Err(AppError::NotFound)
        }
    }

    /// Lists every stored user.
    pub fn list_users(&self) -> (r: Vec<UserResponse>)
        requires
            self.wf(),
        ensures
            r@.len() == self@.len(),
            forall|i: int|
                0 <= i < r@.len() ==> {
                    &&& (#[trigger] r@[i]).id == i + 1
                    &&& r@[i].name@ == self@[i].name@
                    &&& r@[i].email@ == self@[i].email@
                },
    {
        let count = self.users.len();
        let mut out: Vec<UserResponse> = Vec::new();
        let mut i: usize = 0;
        while i < count
            invariant
                self.wf(),
                count == self@.len(),
                i <= count,
                out@.len() == i,
                forall|k: int|
                    0 <= k < i ==> {
                        &&& (#[trigger] out@[k]).id == k + 1
                        &&& out@[k].name@ == self@[k].name@
                        &&& out@[k].email@ == self@[k].email@
                    },
            decreases count - i,
        {
            let u = &self.users[i];
            let id = match u.id {
                Some(id) => id,
                None => i + 1,
            };
            out.push(UserResponse { id, name: u.name.clone(), email: u.email.clone() });
            i = i + 1;
        }
        out
    }

    /// The administrator's view of a user: only for a caller whose
    /// authorization header carries the administrator marker, and only
    /// of a user that exists.
    pub fn admin_user_details(&self, id: usize, auth_header: Option<&str>) -> (r: Result<
        AdminUserResponse,
        AppError,
    >)
        requires
            self.wf(),
        ensures
            match r {
                Ok(resp) => {
                    &&& auth_header matches Some(h) && has_lit(h@, 0, ("Bearer admin-token")@)
                    &&& 1 <= id <= self@.len()
                    &&& resp.id == id
                    &&& resp.name@ == self@[id - 1].name@
                    &&& resp.email@ == self@[id - 1].email@
                    &&& resp.role@ == match self@[id - 1].role {
                        Some(ro) => ro@,
                        None => ("user")@,
                    }
                },
                Err(e) => match auth_header {
                    None => e matches AppError::Unauthorized,
                    Some(h) => if !has_lit(h@, 0, ("Bearer admin-token")@) {
                        e matches AppError::Forbidden
                    } else {
                        (id < 1 || id > self@.len()) && e matches AppError::NotFound
                    },
                },
            },
    {
        let h = match auth_header {
            Some(h) => h,
            None => {
                return Err(AppError::Unauthorized);
            },
        };
        if !crate::payload::expect_lit(h, 0, "Bearer admin-token") {
            return Err(AppError::Forbidden);
        }
        if id < 1 || id > self.users.len() {
            return Err(AppError::NotFound);
        }
        let u = &self.users[id - 1];
        let role = match &u.role {
            Some(ro) => ro.clone(),
            None => String::from_str("user"),
        };
        Ok(
            AdminUserResponse {
                id,
                name: u.name.clone(),
                email: u.email.clone(),
                role,
                created_at: String::from_str("2024-03-10T12:00:00Z"),
                last_login: Some(String::from_str("2024-03-10T12:30:00Z")),
            },
        )
    }
}

/// Whether the text holds an at sign.
fn contains_at(s: &str) -> (r: bool)
    ensures
        r == has_at_sign(s@),
{
    let n = s.unicode_len();
    let mut i: usize = 0;
    while i < n
        invariant
            n == s@.len(),
            i <= n,
            forall|k: int| 0 <= k < i ==> s@[k] != '@',
        decreases n - i,
    {
        if s.get_char(i) == '@' {
            return true;
        }
        i = i + 1;
    }
    false
}

} // verus!
