use vstd::prelude::*;

use crate::error::MarketError;
use crate::text::{chars_of, parse_unsigned_chars, unsigned_value};

verus! {

/// An identifier: issued once by an [`IdIssuer`] and compared by value.
#[derive(Clone, Copy, Debug, PartialEq, Eq, Structural)]
pub struct ID {
    id: usize,
}

impl View for ID {
    type V = nat;

    closed spec fn view(&self) -> nat {
        self.id as nat
    }
}

/// The value that `s` writes as an identifier: `ID=` followed by an
/// unsigned integer.
pub open spec fn id_text_value(s: Seq<char>) -> Option<nat> {
    if s.len() > 3 && s.subrange(0, 3) == seq!['I', 'D', '='] {
        unsigned_value(s.subrange(3, s.len() as int))
    } else {
        None
    }
}

/// Hands out identifiers in increasing order, starting above zero, so that
/// no value is ever issued twice by the same issuer.
#[derive(Debug)]
pub struct IdIssuer {
    issued: usize,
}

impl IdIssuer {
    /// The value that the next call of `issue` hands out.
    pub closed spec fn next_value(&self) -> nat {
        self.issued as nat + 1
    }

    /// A fresh issuer; its first identifier is 1.
    pub fn new() -> (r: IdIssuer)
        ensures
            r.next_value() == 1,
    {
        IdIssuer { issued: 0 }
    }

    /// Whether another identifier can be issued.
    pub fn can_issue(&self) -> (r: bool)
        ensures
            r == (self.next_value() < usize::MAX),
    {
        self.issued < usize::MAX - 1
    }

    /// Issues the next identifier.
    pub fn issue(&mut self) -> (r: ID)
        requires
            old(self).next_value() < usize::MAX,
        ensures
            r@ == old(self).next_value(),
            r@ >= 1,
            final(self).next_value() == old(self).next_value() + 1,
    {
        self.issued = self.issued + 1;
        let r = ID { id: self.issued };
        r
    }
}

impl ID {
    /// Issues a new identifier from `issuer`.
    pub fn new(issuer: &mut IdIssuer) -> (r: ID)
        requires
            old(issuer).next_value() < usize::MAX,
        ensures
            r@ == old(issuer).next_value(),
            r@ >= 1,
            final(issuer).next_value() == old(issuer).next_value() + 1,
    {
        issuer.issue()
    }

    /// An identifier with a given value, as read back from text.
    fn new_forced_id(id_num: usize) -> (r: ID)
        ensures
            r@ == id_num,
    {
        ID { id: id_num }
    }

    /// The value of the identifier.
    pub fn value(&self) -> (r: usize)
        ensures
            r == self@,
    {
        self.id
    }

    /// Whether two identifiers are the same.
    pub fn equals(&self, other: ID) -> (r: bool)
        ensures
            r == (self@ == other@),
    {
        self.id == other.id
    }

    /// Reads the characters `lo..hi` of `s` as `from_string` does.
    pub fn from_chars(s: &Vec<char>, lo: usize, hi: usize) -> (r: Result<ID, MarketError>)
        requires
            lo <= hi <= s@.len(),
        ensures
            r is Ok <==> id_text_value(s@.subrange(lo as int, hi as int)) is Some && id_text_value(
                s@.subrange(lo as int, hi as int),
            )->Some_0 <= usize::MAX,
            r matches Ok(id) ==> id@ == id_text_value(s@.subrange(lo as int, hi as int))->Some_0,
            r is Err ==> r == Err::<ID, MarketError>(MarketError::InvalidArgument),
    {
        let ghost text = s@.subrange(lo as int, hi as int);
        if hi - lo <= 3 || s[lo] != 'I' || s[lo + 1] != 'D' || s[lo + 2] != '=' {
            proof {
                if hi - lo > 3 {
                    let head = text.subrange(0, 3);
                    if head == seq!['I', 'D', '='] {
                        assert(head[0] == text[0] && head[1] == text[1] && head[2] == text[2]);
                    }
                }
            }
            return Err(MarketError::InvalidArgument);
        }
        assert(text.subrange(0, 3) =~= seq!['I', 'D', '=']);
        assert(text.subrange(3, text.len() as int) =~= s@.subrange(lo + 3, hi as int));
        match parse_unsigned_chars(s, lo + 3, hi, usize::MAX as u128) {
            Some(v) => Ok(Self::new_forced_id(v as usize)),
            None => Err(MarketError::InvalidArgument),
        }
    }

    /// Reads an identifier written as `ID=` and its value, such as `ID=654`.
    /// Anything else, or a value beyond `usize`, is refused with
    /// `InvalidArgument`.
    pub fn from_string(string: &String) -> (r: Result<ID, MarketError>)
        ensures
            r is Ok <==> id_text_value(string@) is Some && id_text_value(string@)->Some_0
                <= usize::MAX,
            r matches Ok(id) ==> id@ == id_text_value(string@)->Some_0,
            r is Err ==> r == Err::<ID, MarketError>(MarketError::InvalidArgument),
    {
        let chars = chars_of(string.as_str());
        assert(chars@.subrange(0, chars@.len() as int) =~= string@);
        Self::from_chars(&chars, 0, chars.len())
    }
}

} // verus!
