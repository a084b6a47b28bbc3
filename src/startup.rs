use vstd::prelude::*;

verus! {

/// The public base URL of the application, used to build links in emails.
#[derive(Debug)]
pub struct ApplicationBaseUrl(pub String);

} // verus!
