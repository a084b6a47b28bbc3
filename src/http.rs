use vstd::prelude::*;
use vstd::utf8::encode_utf8;

verus! {

/// One response header: a name and a value, kept in the order they were set.
#[derive(Debug, Clone)]
pub struct Header {
    pub name: String,
    pub value: String,
}

/// An HTTP-shaped response: status code, ordered headers (names may repeat)
/// and body bytes. This is what the idempotency layer captures and replays.
#[derive(Debug, Clone)]
pub struct Response {
    pub status: u16,
    pub headers: Vec<Header>,
    pub body: Vec<u8>,
}

pub struct ResponseView {
    pub status: u16,
    pub headers: Seq<(Seq<char>, Seq<char>)>,
    pub body: Seq<u8>,
}

impl View for Header {
    type V = (Seq<char>, Seq<char>);

    open spec fn view(&self) -> (Seq<char>, Seq<char>) {
        (self.name@, self.value@)
    }
}

impl View for Response {
    type V = ResponseView;

    open spec fn view(&self) -> ResponseView {
        ResponseView {
            status: self.status,
            headers: self.headers@.map_values(|h: Header| h@),
            body: self.body@,
        }
    }
}

pub const OK: u16 = 200;

pub const SEE_OTHER: u16 = 303;

/// A `200 OK` whose plain-text body is `message`, encoded as UTF-8.
pub open spec fn ok_text_spec(message: Seq<char>) -> ResponseView {
    ResponseView {
        status: OK,
        headers: seq![("content-type"@, "text/plain; charset=utf-8"@)],
        body: encode_utf8(message),
    }
}

/// The response that redirects the client to `location`.
pub open spec fn see_other_spec(location: Seq<char>) -> ResponseView {
    ResponseView {
        status: SEE_OTHER,
        headers: seq![("location"@, location)],
        body: Seq::empty(),
    }
}

impl Header {
    pub fn duplicate(&self) -> (r: Header)
        ensures
            r@ == self@,
    {
        Header { name: self.name.clone(), value: self.value.clone() }
    }
}

impl Response {
    /// A copy equal to `self` in every field, byte for byte.
    pub fn duplicate(&self) -> (r: Response)
        ensures
            r@ == self@,
    {
        let mut headers: Vec<Header> = Vec::new();
        let n = self.headers.len();
        for i in 0..n
            invariant
                n == self.headers@.len(),
                headers@.len() == i,
                forall|j: int| 0 <= j < i ==> (#[trigger] headers@[j])@ == self.headers@[j]@,
        {
            headers.push(self.headers[i].duplicate());
        }
        assert(headers@.map_values(|h: Header| h@) =~= self.headers@.map_values(|h: Header| h@));
        let mut body: Vec<u8> = Vec::new();
        let m = self.body.len();
        for i in 0..m
            invariant
                m == self.body@.len(),
                body@ =~= self.body@.take(i as int),
        {
            body.push(self.body[i]);
        }
        assert(self.body@.take(m as int) =~= self.body@);
        Response { status: self.status, headers, body }
    }
}

/// A `200 OK` carrying `message` as plain text.
pub fn ok_text(message: &str) -> (r: Response)
    ensures
        r@ == ok_text_spec(message@),
{
    let mut headers: Vec<Header> = Vec::new();
    headers.push(
        Header {
            name: String::from_str("content-type"),
            value: String::from_str("text/plain; charset=utf-8"),
        },
    );
    let r = Response { status: OK, headers, body: message.as_bytes_vec() };
    assert(r@.headers =~= seq![("content-type"@, "text/plain; charset=utf-8"@)]);
    r
}

/// A `303 See Other` redirect to `location`, with an empty body.
pub fn see_other(location: &str) -> (r: Response)
    ensures
        r@ == see_other_spec(location@),
{
    let name = String::from_str("location");
    proof {
        reveal_strlit("location");
    }
    let mut headers: Vec<Header> = Vec::new();
    headers.push(Header { name, value: String::from_str(location) });
    let r = Response { status: SEE_OTHER, headers, body: Vec::new() };
    assert(r@.headers =~= seq![("location"@, location@)]);
    r
}

} // verus!
