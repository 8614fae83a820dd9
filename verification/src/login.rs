//! Who is logged in, and when the login and register forms may be sent.
use vstd::prelude::*;

verus! {

/// The logged-in user: name, id, and the identity the server knows.
#[derive(Debug)]
pub struct UserData {
    pub name: String,
    pub id: u64,
    pub identity: [u8; 32],
}

impl UserData {
    pub fn copy(&self) -> (r: UserData)
        ensures
            r == *self,
    {
        UserData { name: self.name.clone(), id: self.id, identity: self.identity }
    }
}

/// Whether the client is connected, and who is logged in.
#[derive(Debug)]
pub struct LoginPlugin {
    pub connected: bool,
    pub current_user: Option<UserData>,
}

impl LoginPlugin {
    pub fn new() -> (r: LoginPlugin)
        ensures
            !r.connected,
            r.current_user is None,
    {
        LoginPlugin { connected: false, current_user: None }
    }

    pub fn is_connected(&self) -> (r: bool)
        ensures
            r == self.connected,
    {
        self.connected
    }

    /// The logged-in user, if any.
    pub fn get_user_data(&self) -> (r: Option<UserData>)
        ensures
            r == self.current_user,
    {
        match &self.current_user {
            Some(u) => Some(u.copy()),
            None => None,
        }
    }

    /// Records who logged in.
    pub fn save_current_user(&mut self, name: String, id: u64, identity: [u8; 32])
        ensures
            final(self).current_user == Some(UserData { name, id, identity }),
            final(self).connected == old(self).connected,
    {
        self.current_user = Some(UserData { name, id, identity });
    }
}

/// The login form.
#[derive(Debug)]
pub struct LoginData {
    pub name: String,
    pub pass: String,
    pub login_sent: bool,
}

impl LoginData {
    /// The form may be sent once both name and password are filled in.
    pub fn can_login(&self) -> (r: bool)
        ensures
            r == (self.name@.len() > 0 && self.pass@.len() > 0),
    {
        !self.name.as_str().is_empty() && !self.pass.as_str().is_empty()
    }
}

/// The register form.
#[derive(Debug)]
pub struct RegisterData {
    pub name: String,
    pub pass: String,
    pub pass_repeat: String,
}

impl RegisterData {
    /// The form may be sent once name and password are filled in and the
    /// password is repeated exactly.
    pub fn can_register(&self) -> (r: bool)
        ensures
            r == (self.name@.len() > 0 && self.pass@.len() > 0 && self.pass@ == self.pass_repeat@),
    {
        !self.name.as_str().is_empty() && !self.pass.as_str().is_empty() && self.pass == self.pass_repeat
    }
}

/// Sent once a user has logged in.
#[derive(Clone, Copy, Debug, PartialEq, Eq, Structural)]
pub struct LoginEvent {}

} // verus!
