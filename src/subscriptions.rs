use vstd::prelude::*;

use rand::Rng;

verus! {

/// The subscription form.
#[derive(Debug)]
pub struct FormData {
    pub email: String,
    pub name: String,
}

/// The query of a confirmation link.
#[derive(Debug)]
pub struct ConfirmParameters {
    pub subscription_token: String,
}

pub open spec fn is_ascii_alphanumeric(c: char) -> bool {
    ('A' <= c && c <= 'Z') || ('a' <= c && c <= 'z') || ('0' <= c && c <= '9')
}

/// Relies on rand's `Alphanumeric` distribution sampled from the thread-local
/// generator: a byte of `A-Z`, `a-z` or `0-9`.
#[verifier::external_body]
fn random_alphanumeric() -> (c: char)
    ensures
        is_ascii_alphanumeric(c),
{
    char::from(rand::thread_rng().sample(rand::distributions::Alphanumeric))
}

/// Relies on `String::push`: appends one character.
#[verifier::external_body]
fn push_char(s: &mut String, c: char)
    ensures
        final(s)@ == old(s)@.push(c),
{
    s.push(c)
}

/// The length of a subscription token.
pub const TOKEN_LEN: usize = 25;

/// A fresh random subscription token of `TOKEN_LEN` ASCII letters and digits.
pub fn generate_subcription_token() -> (r: String)
    ensures
        r@.len() == TOKEN_LEN,
        forall|i: int| 0 <= i < r@.len() ==> is_ascii_alphanumeric(#[trigger] r@[i]),
{
    let mut token = String::new();
    let mut i: usize = 0;
    while i < TOKEN_LEN
        invariant
            i <= TOKEN_LEN,
            token@.len() == i,
            forall|j: int| 0 <= j < i ==> is_ascii_alphanumeric(#[trigger] token@[j]),
        decreases TOKEN_LEN - i,
    {
        let c = random_alphanumeric();
        push_char(&mut token, c);
        i = i + 1;
    }
    token
}

/// The confirmation email sent to a new subscriber.
#[derive(Debug)]
pub struct ConfirmationEmail {
    pub subject: String,
    pub html_content: String,
    pub text_content: String,
}

pub open spec fn confirmation_link(base_url: Seq<char>, token: Seq<char>) -> Seq<char> {
    base_url + "/subscriptions/confirm?subscription_token="@ + token
}

/// The email that invites a subscriber to follow the confirmation link made
/// from `base_url` and `subscription_token`.
pub fn confirmation_email(base_url: &str, subscription_token: &str) -> (r: ConfirmationEmail)
    ensures
        r.subject@ == "Welcome!"@,
        r.html_content@ == "Welcome to our newsletter!<br /> Click <a href=\""@ + confirmation_link(
            base_url@,
            subscription_token@,
        ) + "\">here</a> to confirm you subscription."@,
        r.text_content@ == "Welcome to our newsletter!\n Visit "@ + confirmation_link(
            base_url@,
            subscription_token@,
        ) + " to confirm you subscription"@,
{
    let mut link = String::from_str(base_url);
    link.append("/subscriptions/confirm?subscription_token=");
    link.append(subscription_token);
    let mut html_content = String::from_str("Welcome to our newsletter!<br /> Click <a href=\"");
    html_content.append(link.as_str());
    html_content.append("\">here</a> to confirm you subscription.");
    let mut text_content = String::from_str("Welcome to our newsletter!\n Visit ");
    text_content.append(link.as_str());
    text_content.append(" to confirm you subscription");
    let subject = String::from_str("Welcome!");
    proof {
        assert(link@ =~= confirmation_link(base_url@, subscription_token@));
    }
    ConfirmationEmail { subject, html_content, text_content }
}

} // verus!
