//! User accounts.

use vstd::prelude::*;

verus! {

/// One user account.
#[derive(Debug)]
pub struct User {
    pub username: String,
    pub email: String,
    pub sign_in_count: u64,
    pub active: bool,
}

impl User {
    /// A new active account with a single sign-in.
    pub fn new(username: String, email: String) -> (u: User)
        ensures
            u.username@ == username@,
            u.email@ == email@,
            u.sign_in_count == 1,
            u.active,
    {
        User { username, email, sign_in_count: 1, active: true }
    }

    /// Mark the account inactive; nothing else changes.
    pub fn deactivate(&mut self)
        ensures
            !final(self).active,
            final(self).username == old(self).username,
            final(self).email == old(self).email,
            final(self).sign_in_count == old(self).sign_in_count,
    {
        self.active = false;
    }

    /// Mark the account active; nothing else changes.
    pub fn activate(&mut self)
        ensures
            final(self).active,
            final(self).username == old(self).username,
            final(self).email == old(self).email,
            final(self).sign_in_count == old(self).sign_in_count,
    {
        self.active = true;
    }

    /// Count one more sign-in; nothing else changes.
    pub fn increment_sign_in(&mut self)
        requires
            old(self).sign_in_count < u64::MAX,
        ensures
            final(self).sign_in_count == old(self).sign_in_count + 1,
            final(self).username == old(self).username,
            final(self).email == old(self).email,
            final(self).active == old(self).active,
    {
        self.sign_in_count = self.sign_in_count + 1;
    }

    /// Whether two accounts carry the same email address.
    pub fn is_same_email(&self, other: &User) -> (r: bool)
        ensures
            r == (self.email@ == other.email@),
    {
        self.email == other.email
    }
}

} // verus!
