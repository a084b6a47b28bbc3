use vstd::prelude::*;

verus! {

/// The longest idempotency key accepted, in characters.
pub const MAX_KEY_LEN: usize = 256;

/// A control character: C0 controls, DEL and C1 controls. Such characters would
/// break header encoding or storage, so keys may not hold them.
pub open spec fn is_control(c: char) -> bool {
    (c as u32) < 0x20 || (c as u32) == 0x7f || (0x80 <= (c as u32) && (c as u32) < 0xa0)
}

pub open spec fn valid_key(s: Seq<char>) -> bool {
    &&& 0 < s.len() <= MAX_KEY_LEN
    &&& forall|i: int| 0 <= i < s.len() ==> !is_control(#[trigger] s[i])
}

/// Why a caller-supplied idempotency key was refused.
#[derive(Debug, Clone, Copy, PartialEq, Eq, Structural)]
pub enum KeyError {
    Empty,
    TooLong,
    ControlCharacter,
}

/// The error that `IdempotencyKey::parse` returns for `s`, if any.
pub open spec fn key_error(s: Seq<char>) -> Option<KeyError> {
    if s.len() == 0 {
        Some(KeyError::Empty)
    } else if s.len() > MAX_KEY_LEN {
        Some(KeyError::TooLong)
    } else if exists|i: int| 0 <= i < s.len() && is_control(#[trigger] s[i]) {
        Some(KeyError::ControlCharacter)
    } else {
        None
    }
}

/// A validated caller-supplied idempotency key.
#[derive(Debug)]
pub struct IdempotencyKey {
    key: String,
}

impl View for IdempotencyKey {
    type V = Seq<char>;

    closed spec fn view(&self) -> Seq<char> {
        self.key@
    }
}

impl IdempotencyKey {
    pub open spec fn wf(&self) -> bool {
        valid_key(self@)
    }

    /// Accepts a non-empty key of at most `MAX_KEY_LEN` characters without
    /// control characters.
    pub fn parse(s: String) -> (r: Result<IdempotencyKey, KeyError>)
        ensures
            key_error(s@) is None <==> r is Ok,
            r matches Ok(k) ==> k@ == s@ && k.wf(),
            r matches Err(e) ==> key_error(s@) == Some(e),
    {
        let n = s.as_str().unicode_len();
        if n == 0 {
            return Err(KeyError::Empty);
        }
        if n > MAX_KEY_LEN {
            return Err(KeyError::TooLong);
        }
        let mut i: usize = 0;
        while i < n
            invariant
                n == s@.len(),
                0 < n <= MAX_KEY_LEN,
                i <= n,
                forall|j: int| 0 <= j < i ==> !is_control(#[trigger] s@[j]),
            decreases n - i,
        {
            let c = s.as_str().get_char(i);
            let v = c as u32;
            if v < 0x20 || v == 0x7f || (0x80 <= v && v < 0xa0) {
                assert(is_control(s@[i as int]));
                assert(exists|j: int| 0 <= j < s@.len() && is_control(#[trigger] s@[j]));
                return Err(KeyError::ControlCharacter);
            }
            i = i + 1;
        }
        Ok(IdempotencyKey { key: s })
    }

    pub fn as_str(&self) -> (r: &str)
        ensures
            r@ == self@,
    {
        self.key.as_str()
    }

    pub fn same_as(&self, other: &IdempotencyKey) -> (r: bool)
        ensures
            r == (self@ == other@),
    {
        self.key == other.key
    }

    pub fn duplicate(&self) -> (r: IdempotencyKey)
        ensures
            r@ == self@,
    {
        IdempotencyKey { key: self.key.clone() }
    }
}

} // verus!
