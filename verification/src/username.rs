//! Usernames: one to thirteen ASCII letters or digits.

use vstd::prelude::*;
use vstd::slice::slice_to_vec;
use vstd::string::StringSliceAdditionalSpecFns;

verus! {

/// The longest username a player may hold.
pub const MAX_USERNAME_LEN: usize = 13;

/// Whether `b` is an ASCII letter or digit.
pub open spec fn is_alnum(b: u8) -> bool {
    ||| 0x30 <= b <= 0x39
    ||| 0x41 <= b <= 0x5a
    ||| 0x61 <= b <= 0x7a
}

/// Whether every byte of `s` is an ASCII letter or digit.
pub open spec fn all_alnum(s: Seq<u8>) -> bool {
    forall|i: int| 0 <= i < s.len() ==> is_alnum(#[trigger] s[i])
}

/// Whether `s` may name a player.
pub open spec fn valid_username(s: Seq<u8>) -> bool {
    1 <= s.len() <= MAX_USERNAME_LEN && all_alnum(s)
}

/// Tells whether a byte is an ASCII letter or digit.
pub fn is_alnum_byte(b: u8) -> (r: bool)
    ensures
        r == is_alnum(b),
{
    (0x30 <= b && b <= 0x39) || (0x41 <= b && b <= 0x5a) || (0x61 <= b && b <= 0x7a)
}

/// Tells whether the bytes of `s` from `start` on are all ASCII letters or
/// digits.
pub(crate) fn all_alnum_from(s: &Vec<u8>, start: usize) -> (r: bool)
    requires
        start <= s.len(),
    ensures
        r == all_alnum(s@.subrange(start as int, s.len() as int)),
{
    let mut i: usize = start;
    while i < s.len()
        invariant
            start <= i <= s.len(),
            forall|k: int| start <= k < i ==> is_alnum(#[trigger] s@[k]),
        decreases s.len() - i,
    {
        if !is_alnum_byte(s[i]) {
            proof {
                let tail = s@.subrange(start as int, s.len() as int);
                assert(!is_alnum(tail[i - start]));
            }
            return false;
        }
        i += 1;
    }
    proof {
        let tail = s@.subrange(start as int, s.len() as int);
        assert forall|k: int| 0 <= k < tail.len() implies is_alnum(#[trigger] tail[k]) by {
            assert(tail[k] == s@[start + k]);
        }
    }
    true
}

/// The name of a player. Its bytes are always a valid username.
#[derive(Debug, PartialEq, Eq)]
pub struct Username {
    bytes: Vec<u8>,
}

impl View for Username {
    type V = Seq<u8>;

    closed spec fn view(&self) -> Seq<u8> {
        self.bytes@
    }
}

impl Username {
    /// The invariant of the type: the bytes are a valid username.
    #[verifier::type_invariant]
    pub open spec fn inv(self) -> bool {
        valid_username(self@)
    }

    /// Makes a username of `bytes`, if they are one to thirteen ASCII
    /// letters or digits.
    pub fn new(bytes: Vec<u8>) -> (r: Option<Username>)
        ensures
            r is Some <==> valid_username(bytes@),
            r matches Some(name) ==> name@ == bytes@,
    {
        if bytes.len() < 1 || bytes.len() > MAX_USERNAME_LEN {
            return None;
        }
        assert(bytes@.subrange(0, bytes.len() as int) =~= bytes@);
        if all_alnum_from(&bytes, 0) {
            Some(Username { bytes })
        } else {
            None
        }
    }

    /// Makes a username of the text `name`, on the same condition.
    pub fn parse(name: &str) -> (r: Option<Username>)
        ensures
            r is Some <==> valid_username(name.spec_bytes()),
            r matches Some(n) ==> n@ == name.spec_bytes(),
    {
        Username::new(slice_to_vec(name.as_bytes()))
    }

    /// The bytes of the name.
    pub fn as_bytes(&self) -> (r: &Vec<u8>)
        ensures
            r@ == self@,
            valid_username(r@),
    {
        proof {
            use_type_invariant(self);
        }
        &self.bytes
    }

    /// The number of bytes in the name.
    pub fn len(&self) -> (r: usize)
        ensures
            r == self@.len(),
            1 <= r <= MAX_USERNAME_LEN,
    {
        proof {
            use_type_invariant(self);
        }
        self.bytes.len()
    }

    /// Tells whether two usernames are the same name.
    pub fn same(&self, other: &Username) -> (r: bool)
        ensures
            r == (self@ == other@),
    {
        let r = self.bytes == other.bytes;
        proof {
            if r {
                assert(self.bytes@ =~= other.bytes@);
            }
        }
        r
    }
}

impl Clone for Username {
    fn clone(&self) -> (r: Username)
        ensures
            r@ == self@,
    {
        proof {
            use_type_invariant(self);
        }
        let bytes = self.bytes.clone();
        assert(bytes@ =~= self.bytes@);
        Username { bytes }
    }
}

} // verus!
