use vstd::prelude::*;

use crate::http::{Response, see_other, see_other_spec};

verus! {

/// The identifier of a logged-in user.
#[derive(Debug, Clone, Copy, PartialEq, Eq, Structural)]
pub struct UserID(pub u128);

/// Lets a request through only for a logged-in user: the user found in the
/// session, or a redirect to the login page when there is none.
pub fn reject_anonymous_users(session_user: Option<u128>) -> (r: Result<UserID, Response>)
    ensures
        session_user matches Some(id) ==> r == Ok::<UserID, Response>(UserID(id)),
        session_user is None ==> (r matches Err(resp) && resp@ == see_other_spec("/login"@)),
{
    match session_user {
        Some(id) => Ok(UserID(id)),
        None => Err(see_other("/login")),
    }
}

} // verus!
