use vstd::prelude::*;

verus! {

/// The form of the admin publish page.
#[derive(Debug)]
pub struct FormData {
    pub title: String,
    pub text_content: String,
    pub html_content: String,
    pub idempotency_key: String,
}

} // verus!
