use vstd::prelude::*;

verus! {

/// The query of the login page: an error to show, and its tag.
#[derive(Debug)]
pub struct QueryParam {
    pub error: String,
    pub tag: String,
}

/// `s` with the five characters `"&'<>` replaced by HTML entities.
pub open spec fn encode_minimal_spec(s: Seq<char>) -> Seq<char>
    decreases s.len(),
{
    if s.len() == 0 {
        Seq::empty()
    } else {
        encode_minimal_spec(s.drop_last()) + minimal_entity(s.last())
    }
}

pub open spec fn minimal_entity(c: char) -> Seq<char> {
    if c == '"' {
        "&quot;"@
    } else if c == '&' {
        "&amp;"@
    } else if c == '\'' {
        "&#x27;"@
    } else if c == '<' {
        "&lt;"@
    } else if c == '>' {
        "&gt;"@
    } else {
        seq![c]
    }
}

/// Relies on htmlescape::encode_minimal: each of `"&'<>` becomes its entity,
/// every other character is kept.
#[verifier::external_body]
fn html_encode_minimal(s: &str) -> (r: String)
    ensures
        r@ == encode_minimal_spec(s@),
{
    htmlescape::encode_minimal(s)
}

pub const LOGIN_PAGE_HEAD: &'static str = "<!DOCTYPE html>\n<html lang=\"en\">\n<head>\n    <meta http-equiv=\"content-type\" content=\"text/html; charset=utf-8\">\n    <title>Login</title>\n</head>\n<body>\n    ";

pub const LOGIN_PAGE_TAIL: &'static str = "\n    <form action=\"/login\" method=\"post\">\n        <label>Username\n            <input\n                type=\"text\"\n                placeholder=\"Enter Username\"\n                name=\"username\"\n            >\n        </label>\n        <label>Password\n        \n        “ <input\n        type=\"password\"\n        placeholder=\"Enter Password\"\n        name=\"password\"\n    >\n</label>\n<button type=\"submit\">Login</button>\n</form>\n</body>\n</html>";

/// The error paragraph for an error message, escaped.
pub open spec fn error_html(error: Option<Seq<char>>) -> Seq<char> {
    match error {
        None => Seq::empty(),
        Some(e) => "<p><i>"@ + encode_minimal_spec(e) + "</i></p>"@,
    }
}

pub open spec fn login_page(error: Option<Seq<char>>) -> Seq<char> {
    LOGIN_PAGE_HEAD@ + error_html(error) + LOGIN_PAGE_TAIL@
}

/// The HTML of the login form, showing the query's error message, escaped,
/// when there is one.
pub fn login_form(query: Option<&QueryParam>) -> (r: String)
    ensures
        r@ == login_page(
            match query {
                Some(q) => Some(q.error@),
                None => None,
            },
        ),
{
    let mut page = String::from_str(LOGIN_PAGE_HEAD);
    match query {
        None => {},
        Some(q) => {
            page.append("<p><i>");
            let escaped = html_encode_minimal(q.error.as_str());
            page.append(escaped.as_str());
            page.append("</i></p>");
        },
    }
    page.append(LOGIN_PAGE_TAIL);
    proof {
        match query {
            None => {
                assert(page@ =~= login_page(None));
            },
            Some(q) => {
                assert(page@ =~= login_page(Some(q.error@)));
            },
        }
    }
    page
}

} // verus!
