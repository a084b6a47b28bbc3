use vstd::prelude::*;

use unicode_segmentation::UnicodeSegmentation;

verus! {

/// The number of extended grapheme clusters in `s`.
pub uninterp spec fn grapheme_count(s: Seq<char>) -> nat;

/// Whether `c` has the Unicode White_Space property: the 25 code points
/// U+0009..U+000D, U+0020, U+0085, U+00A0, U+1680, U+2000..U+200A, U+2028,
/// U+2029, U+202F, U+205F and U+3000.
pub open spec fn unicode_white_space(c: char) -> bool {
    let v = c as u32;
    (0x09 <= v && v <= 0x0d) || v == 0x20 || v == 0x85 || v == 0xa0 || v == 0x1680 || (0x2000
        <= v && v <= 0x200a) || v == 0x2028 || v == 0x2029 || v == 0x202f || v == 0x205f || v
        == 0x3000
}

/// Relies on unicode_segmentation's `graphemes(true)`: the number of extended
/// grapheme clusters, which depends on the characters alone.
#[verifier::external_body]
fn count_graphemes(s: &str) -> (n: usize)
    ensures
        n as nat == grapheme_count(s@),
{
    s.graphemes(true).count()
}

/// Relies on `char::is_whitespace`: the Unicode White_Space property of `c`.
#[verifier::external_body]
fn is_white_space(c: char) -> (r: bool)
    ensures
        r == unicode_white_space(c),
{
    c.is_whitespace()
}

/// The most grapheme clusters a subscriber name may have.
pub const MAX_NAME_GRAPHEMES: usize = 256;

/// Characters a subscriber name may not contain.
pub open spec fn forbidden_name_char(c: char) -> bool {
    c == '/' || c == '(' || c == ')' || c == '"' || c == '<' || c == '>' || c == '\\' || c == '{'
        || c == '}'
}

/// Empty, or white space only: what `str::trim` leaves empty.
pub open spec fn blank(s: Seq<char>) -> bool {
    forall|i: int| 0 <= i < s.len() ==> unicode_white_space(#[trigger] s[i])
}

pub open spec fn valid_name(s: Seq<char>) -> bool {
    &&& !blank(s)
    &&& grapheme_count(s) <= MAX_NAME_GRAPHEMES
    &&& forall|i: int| 0 <= i < s.len() ==> !forbidden_name_char(#[trigger] s[i])
}

/// The message of a refused name.
pub open spec fn invalid_name_message(s: Seq<char>) -> Seq<char> {
    s + " is not a valid subscriber name."@
}

/// A subscriber's name: not blank, at most 256 grapheme clusters, and free of
/// the characters `/()"<>\{}`.
#[derive(Debug)]
pub struct SubscriberName(String);

impl View for SubscriberName {
    type V = Seq<char>;

    closed spec fn view(&self) -> Seq<char> {
        self.0@
    }
}

/// Relies on `String::as_mut_str`: the whole string, borrowed mutably.
#[verifier::external_body]
fn string_as_mut_str(s: &mut String) -> (r: &mut str)
    ensures
        (*r)@ == old(s)@,
        final(s)@ == (*final(r))@,
{
    s.as_mut_str()
}

fn is_blank(s: &str) -> (r: bool)
    ensures
        r == blank(s@),
{
    let n = s.unicode_len();
    let mut i: usize = 0;
    while i < n
        invariant
            n == s@.len(),
            i <= n,
            forall|j: int| 0 <= j < i ==> unicode_white_space(#[trigger] s@[j]),
        decreases n - i,
    {
        if !is_white_space(s.get_char(i)) {
            return false;
        }
        i = i + 1;
    }
    true
}

fn has_forbidden_char(s: &str) -> (r: bool)
    ensures
        r == exists|i: int| 0 <= i < s@.len() && forbidden_name_char(#[trigger] s@[i]),
{
    let n = s.unicode_len();
    let mut i: usize = 0;
    while i < n
        invariant
            n == s@.len(),
            i <= n,
            forall|j: int| 0 <= j < i ==> !forbidden_name_char(#[trigger] s@[j]),
        decreases n - i,
    {
        let c = s.get_char(i);
        if c == '/' || c == '(' || c == ')' || c == '"' || c == '<' || c == '>' || c == '\\' || c
            == '{' || c == '}' {
            assert(forbidden_name_char(s@[i as int]));
            return true;
        }
        i = i + 1;
    }
    false
}

impl SubscriberName {
    /// Accepts `s` when it is a valid name; otherwise the message says why.
    pub fn parse(s: String) -> (r: Result<SubscriberName, String>)
        ensures
            r is Ok <==> valid_name(s@),
            r matches Ok(n) ==> n@ == s@,
            r matches Err(m) ==> m@ == invalid_name_message(s@),
    {
        let empty_or_whitespace = is_blank(s.as_str());
        let too_long = count_graphemes(s.as_str()) > MAX_NAME_GRAPHEMES;
        let contains_forbidden_chars = has_forbidden_char(s.as_str());
        if empty_or_whitespace || too_long || contains_forbidden_chars {
            proof {
                reveal_strlit(" is not a valid subscriber name.");
            }
            Err(s.concat(" is not a valid subscriber name."))
        } else {
            Ok(SubscriberName(s))
        }
    }

    pub fn inner(self) -> (r: String)
        ensures
            r@ == self@,
    {
        self.0
    }

    pub fn inner_mut(&mut self) -> (r: &mut str)
        ensures
            (*r)@ == old(self)@,
            final(self)@ == (*final(r))@,
    {
        string_as_mut_str(&mut self.0)
    }

    pub fn inner_ref(&self) -> (r: &str)
        ensures
            r@ == self@,
    {
        self.0.as_str()
    }
}

/// `i` is the place of the only `@` of `s`, with text on both sides.
pub open spec fn sole_at_sign(s: Seq<char>, i: int) -> bool {
    &&& 0 < i < s.len() - 1
    &&& s[i] == '@'
    &&& forall|j: int| 0 <= j < s.len() && j != i ==> #[trigger] s[j] != '@'
}

/// An address of the form `local@domain`: one `@`, text on both sides of it,
/// and no white space.
pub open spec fn valid_email(s: Seq<char>) -> bool {
    &&& exists|i: int| sole_at_sign(s, i)
    &&& forall|i: int| 0 <= i < s.len() ==> !unicode_white_space(#[trigger] s[i])
}

pub open spec fn invalid_email_message(s: Seq<char>) -> Seq<char> {
    s + " is not a valid subscriber email."@
}

/// A subscriber's email address, checked for the `local@domain` shape.
#[derive(Debug)]
pub struct SubscriberEmail(String);

impl View for SubscriberEmail {
    type V = Seq<char>;

    closed spec fn view(&self) -> Seq<char> {
        self.0@
    }
}

impl SubscriberEmail {
    /// Accepts `s` when it is a valid address; otherwise the message says why.
    pub fn parse(s: String) -> (r: Result<SubscriberEmail, String>)
        ensures
            r is Ok <==> valid_email(s@),
            r matches Ok(e) ==> e@ == s@,
            r matches Err(m) ==> m@ == invalid_email_message(s@),
    {
        let n = s.as_str().unicode_len();
        let mut at: Option<usize> = None;
        let mut ok = true;
        let mut i: usize = 0;
        while i < n
            invariant
                n == s@.len(),
                i <= n,
                ok ==> forall|j: int| 0 <= j < i ==> !unicode_white_space(#[trigger] s@[j]),
                ok ==> match at {
                    None => forall|j: int| 0 <= j < i ==> #[trigger] s@[j] != '@',
                    Some(p) => p < i && s@[p as int] == '@' && forall|j: int|
                        0 <= j < i && j != p ==> #[trigger] s@[j] != '@',
                },
                !ok ==> !valid_email(s@),
            decreases n - i,
        {
            if ok {
                let c = s.as_str().get_char(i);
                if is_white_space(c) {
                    ok = false;
                } else if c == '@' {
                    match at {
                        None => {
                            at = Some(i);
                        },
                        Some(p) => {
                            proof {
                                assert forall|k: int| !sole_at_sign(s@, k) by {
                                    if sole_at_sign(s@, k) {
                                        if k == p {
                                            assert(s@[i as int] != '@');
                                        } else {
                                            assert(s@[p as int] != '@');
                                        }
                                    }
                                }
                            }
                            ok = false;
                        },
                    }
                }
            }
            i = i + 1;
        }
        let valid = ok && match at {
            Some(p) => 0 < p && p + 1 < n,
            None => false,
        };
        proof {
            if ok {
                match at {
                    Some(p) => {
                        if valid {
                            assert(sole_at_sign(s@, p as int));
                        } else {
                            assert forall|k: int| !sole_at_sign(s@, k) by {
                                if sole_at_sign(s@, k) && k != p {
                                    assert(s@[k] != '@');
                                }
                            }
                        }
                    },
                    None => {
                        assert forall|k: int| !sole_at_sign(s@, k) by {
                            if sole_at_sign(s@, k) {
                                assert(s@[k] != '@');
                            }
                        }
                    },
                }
            }
        }
        if valid {
            Ok(SubscriberEmail(s))
        } else {
            proof {
                reveal_strlit(" is not a valid subscriber email.");
            }
            Err(s.concat(" is not a valid subscriber email."))
        }
    }

    pub fn inner_ref(&self) -> (r: &str)
        ensures
            r@ == self@,
    {
        self.0.as_str()
    }
}

} // verus!
