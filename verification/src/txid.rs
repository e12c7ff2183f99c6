//! The 32-byte transaction identifier, written as 64 hex characters in the
//! network's conventional order at every text boundary.

use vstd::prelude::*;

use crate::text::{
    all_hex_digits, bytes_of_hex, hex_str_of, parse_hex_range, push_hex,
};

verus! {

/// A transaction identifier: exactly 32 bytes, held in the order in which
/// their hex rendering is written.
#[derive(Debug, PartialEq, Eq)]
pub struct Txid {
    bytes: Vec<u8>,
}

/// A 64-character hex string: the text form of a transaction identifier.
pub open spec fn is_txid_str(s: Seq<char>) -> bool {
    s.len() == 64 && all_hex_digits(s)
}

impl View for Txid {
    type V = Seq<u8>;

    closed spec fn view(&self) -> Seq<u8> {
        self.bytes@
    }
}

impl Txid {
    /// Every identifier holds exactly 32 bytes.
    #[verifier::type_invariant]
    spec fn wf(self) -> bool {
        self.bytes@.len() == 32
    }

    /// The byte length of an identifier: always exactly 32. Callers may rely
    /// on this to know any identifier's view holds 32 bytes.
    pub fn byte_len(&self) -> (n: usize)
        ensures
            n == self@.len(),
            n == 32,
    {
        proof {
            use_type_invariant(self);
        }
        self.bytes.len()
    }

    /// Builds an identifier from its 32 bytes, given in display order.
    pub fn from_bytes(bytes: Vec<u8>) -> (r: Result<Txid, String>)
        ensures
            match r {
                Ok(t) => bytes@.len() == 32 && t@ == bytes@,
                Err(e) => bytes@.len() != 32 && e@ == "A txid holds exactly 32 bytes."@,
            },
    {
        if bytes.len() == 32 {
            Ok(Txid { bytes })
        } else {
            Err(String::from_str("A txid holds exactly 32 bytes."))
        }
    }

    /// Parses the range `s[from..to]` as the 64-hex-character identifier form.
    pub fn parse_range(s: &str, from: usize, to: usize) -> (r: Option<Txid>)
        requires
            from <= to <= s@.len(),
        ensures
            match r {
                Some(t) => is_txid_str(s@.subrange(from as int, to as int)) && t@ == bytes_of_hex(
                    s@.subrange(from as int, to as int),
                ),
                None => !is_txid_str(s@.subrange(from as int, to as int)),
            },
    {
        if to - from != 64 {
            return None;
        }
        match parse_hex_range(s, from, to) {
            Some(b) => {
                proof {
                    assert(b@.len() == 32);
                }
                Some(Txid { bytes: b })
            },
            None => None,
        }
    }

    /// Parses a whole string as an identifier.
    pub fn from_text(s: &str) -> (r: Option<Txid>)
        ensures
            match r {
                Some(t) => is_txid_str(s@) && t@ == bytes_of_hex(s@),
                None => !is_txid_str(s@),
            },
    {
        let n = s.unicode_len();
        let r = Txid::parse_range(s, 0, n);
        proof {
            assert(s@.subrange(0, n as int) =~= s@);
        }
        r
    }

    /// The conventional 64-character lowercase hex form.
    pub fn to_text(&self) -> (r: String)
        ensures
            r@ == hex_str_of(self@),
    {
        let mut out = String::new();
        self.push_to(&mut out);
        proof {
            assert(out@ =~= hex_str_of(self@));
        }
        out
    }

    /// Appends the hex form to `out`.
    pub fn push_to(&self, out: &mut String)
        ensures
            final(out)@ == old(out)@ + hex_str_of(self@),
    {
        push_hex(out, &self.bytes);
    }

    /// Byte-for-byte equality of two identifiers.
    pub fn matches(&self, other: &Txid) -> (r: bool)
        ensures
            r == (self@ == other@),
    {
        proof {
            use_type_invariant(self);
            use_type_invariant(other);
        }
        let mut i: usize = 0;
        while i < 32
            invariant
                i <= 32,
                self@.len() == 32,
                other@.len() == 32,
                forall|j: int| 0 <= j < i ==> self@[j] == other@[j],
            decreases 32 - i,
        {
            if self.bytes[i] != other.bytes[i] {
                return false;
            }
            i = i + 1;
        }
        proof {
            assert(self@ =~= other@);
        }
        true
    }
}

impl Clone for Txid {
    fn clone(&self) -> (r: Self)
        ensures
            r@ == self@,
    {
        proof {
            use_type_invariant(self);
        }
        let bytes = self.bytes.clone();
        proof {
            assert(bytes@ =~= self.bytes@);
        }
        Txid { bytes }
    }
}

} // verus!
