//! Shared protocol and data layer for a Bitcoin-settled exchange: the
//! UTXO/coin-balance model used to describe exchange intentions, and a
//! co-signing protocol that finalizes the Taproot key-spend witnesses of the
//! transaction inputs a liquidity pool owns.

use vstd::prelude::*;

mod coin_id;
pub mod intention;
pub mod psbt;
pub mod text;
pub mod txid;

pub use coin_id::CoinId;
pub use txid::Txid;

use crate::text::{
    dec_str_of, dec_val, find_colon, first_colon, hex_str_of, is_canonical_dec, is_dec_bounded,
    lemma_canonical_dec_unique, lemma_dec_val_nonneg, lemma_first_colon_unique,
    lemma_hex_format_parse, lemma_hex_parse_format, lower_hex, parse_dec_range, push_dec,
    bytes_of_hex,
};
use crate::txid::is_txid_str;

verus! {

/// A fungible-token amount: a token identifier together with a quantity.
#[derive(Copy, Clone, Debug, PartialEq, Eq, Structural)]
pub struct CoinBalance {
    pub id: CoinId,
    pub value: u128,
}

/// An unspent transaction output owned by some party, together with the token
/// balance it carries, if any.
#[derive(Debug, PartialEq, Eq)]
pub struct Utxo {
    pub txid: Txid,
    pub vout: u32,
    pub maybe_rune: Option<CoinBalance>,
    pub sats: u64,
}

/// The txid segment of an outpoint string: everything before the first ':'.
pub open spec fn outpoint_txid_seg(s: Seq<char>) -> Seq<char> {
    s.take(first_colon(s))
}

/// Whether an outpoint string has a vout segment: it has at least one ':'.
pub open spec fn outpoint_has_vout(s: Seq<char>) -> bool {
    first_colon(s) < s.len()
}

/// The vout segment of an outpoint string: between the first ':' and the
/// second one, or the end. Text after a second ':' is ignored.
pub open spec fn outpoint_vout_seg(s: Seq<char>) -> Seq<char> {
    let r = s.skip(first_colon(s) + 1);
    r.take(first_colon(r))
}

/// The digits of a vout segment; the unsigned-integer grammar allows one
/// optional leading '+'.
pub open spec fn vout_digits(s: Seq<char>) -> Seq<char> {
    if s.len() > 0 && s[0] == '+' {
        s.skip(1)
    } else {
        s
    }
}

/// A vout segment: an unsigned decimal number that fits in 32 bits.
pub open spec fn is_vout_str(s: Seq<char>) -> bool {
    is_dec_bounded(vout_digits(s), u32::MAX as int)
}

/// A parseable outpoint string: a 64-hex-character txid, a ':', and a vout.
pub open spec fn is_valid_outpoint_str(s: Seq<char>) -> bool {
    &&& is_txid_str(outpoint_txid_seg(s))
    &&& outpoint_has_vout(s)
    &&& is_vout_str(outpoint_vout_seg(s))
}

/// The canonical text of an outpoint: lowercase hex txid, ':', decimal vout.
pub open spec fn outpoint_str_of(txid: Seq<u8>, vout: int) -> Seq<char> {
    hex_str_of(txid) + seq![':'] + dec_str_of(vout)
}

/// The balance amount a UTXO carries: zero when none is attached.
pub open spec fn rune_amount_of(u: Utxo) -> u128 {
    match u.maybe_rune {
        Some(b) => b.value,
        None => 0,
    }
}

impl Utxo {
    /// Builds a UTXO from an `"txid:vout"` outpoint string, an optional token
    /// balance, and a satoshi amount. Fails, with a message naming the bad
    /// segment, exactly when the txid segment is not a 64-hex-character
    /// transaction id or the vout segment is not an unsigned 32-bit decimal.
    pub fn try_from(outpoint: &str, maybe_rune: Option<CoinBalance>, sats: u64) -> (r: Result<
        Utxo,
        String,
    >)
        ensures
            match r {
                Ok(u) => {
                    &&& is_valid_outpoint_str(outpoint@)
                    &&& u.txid@ == bytes_of_hex(outpoint_txid_seg(outpoint@))
                    &&& u.vout as int == dec_val(vout_digits(outpoint_vout_seg(outpoint@)))
                    &&& u.maybe_rune == maybe_rune
                    &&& u.sats == sats
                },
                Err(e) => {
                    &&& !is_valid_outpoint_str(outpoint@)
                    &&& if !is_txid_str(outpoint_txid_seg(outpoint@)) {
                        e@ == "Invalid txid in outpoint."@
                    } else if !outpoint_has_vout(outpoint@) {
                        e@ == "Invalid vout in outpoint"@
                    } else {
                        e@ == "Invalid vout in outpoint."@
                    }
                },
            },
    {
        let n = outpoint.unicode_len();
        let c1 = find_colon(outpoint, 0);
        proof {
            lemma_first_colon_unique(outpoint@, c1 as int);
            assert(outpoint@.take(c1 as int) =~= outpoint@.subrange(0, c1 as int));
        }
        let txid = match Txid::parse_range(outpoint, 0, c1) {
            Some(t) => t,
            None => {
                return Err(String::from_str("Invalid txid in outpoint."));
            },
        };
        if c1 == n {
            return Err(String::from_str("Invalid vout in outpoint"));
        }
        let c2 = find_colon(outpoint, c1 + 1);
        let ghost sk = outpoint@.skip(c1 + 1);
        proof {
            assert forall|j: int| 0 <= j < c2 - (c1 + 1) implies sk[j] != ':' by {
                assert(sk[j] == outpoint@[c1 + 1 + j]);
            }
            if c2 < n {
                assert(sk[c2 - (c1 + 1)] == outpoint@[c2 as int]);
            }
            lemma_first_colon_unique(sk, c2 - (c1 + 1));
            assert(outpoint_vout_seg(outpoint@) =~= outpoint@.subrange(c1 + 1, c2 as int));
        }
        let vstart: usize = if c1 + 1 < c2 && outpoint.get_char(c1 + 1) == '+' {
            c1 + 2
        } else {
            c1 + 1
        };
        proof {
            let seg = outpoint_vout_seg(outpoint@);
            if vstart == c1 + 2 {
                assert(seg[0] == outpoint@[c1 + 1]);
                assert(vout_digits(seg) =~= outpoint@.subrange(vstart as int, c2 as int));
            } else {
                if seg.len() > 0 {
                    assert(seg[0] == outpoint@[c1 + 1]);
                }
                assert(vout_digits(seg) =~= outpoint@.subrange(vstart as int, c2 as int));
            }
        }
        let vout = match parse_dec_range(outpoint, vstart, c2, u32::MAX as u64) {
            Some(v) => v as u32,
            None => {
                return Err(String::from_str("Invalid vout in outpoint."));
            },
        };
        Ok(Utxo { txid, vout, maybe_rune, sats })
    }

    /// The `"txid:vout"` outpoint this UTXO stands for, in canonical form:
    /// lowercase hex and decimal with no redundant characters. The result is
    /// itself a well-formed outpoint string that parses back to the same
    /// transaction id and output index.
    pub fn outpoint(&self) -> (r: String)
        ensures
            r@ == outpoint_str_of(self.txid@, self.vout as int),
            is_valid_outpoint_str(r@),
            bytes_of_hex(outpoint_txid_seg(r@)) == self.txid@,
            dec_val(vout_digits(outpoint_vout_seg(r@))) == self.vout as int,
    {
        let _len = self.txid.byte_len();
        let mut out = String::new();
        self.txid.push_to(&mut out);
        out.append(":");
        push_dec(&mut out, self.vout as u128);
        proof {
            reveal_strlit(":");
            assert(out@ =~= outpoint_str_of(self.txid@, self.vout as int));
            lemma_outpoint_format_parse(self.txid@, self.vout as int);
        }
        out
    }

    /// The token amount this UTXO carries, or zero when it carries none.
    pub fn rune_amount(&self) -> (r: u128)
        ensures
            r == rune_amount_of(*self),
    {
        match self.maybe_rune {
            Some(b) => b.value,
            None => 0,
        }
    }
}

impl Clone for Utxo {
    fn clone(&self) -> (r: Self)
        ensures
            r.txid@ == self.txid@,
            r.vout == self.vout,
            r.maybe_rune == self.maybe_rune,
            r.sats == self.sats,
    {
        Utxo {
            txid: self.txid.clone(),
            vout: self.vout,
            maybe_rune: self.maybe_rune,
            sats: self.sats,
        }
    }
}

/// Parsing a well-formed `"txid:vout"` string and formatting the parts back
/// yields the same string with its hex digits lowercased: `try_from` and
/// `outpoint` are mutual inverses on canonical text.
pub proof fn lemma_outpoint_round_trip(t: Seq<char>, v: Seq<char>)
    requires
        is_txid_str(t),
        is_canonical_dec(v),
        dec_val(v) <= u32::MAX as int,
    ensures
        is_valid_outpoint_str(t + seq![':'] + v),
        outpoint_txid_seg(t + seq![':'] + v) == t,
        vout_digits(outpoint_vout_seg(t + seq![':'] + v)) == v,
        outpoint_str_of(bytes_of_hex(t), dec_val(v)) == lower_hex(t) + seq![':'] + v,
{
    let s = t + seq![':'] + v;
    assert forall|j: int| 0 <= j < 64 implies s[j] != ':' by {
        assert(s[j] == t[j]);
        assert(crate::text::is_hex_digit(t[j]));
    }
    assert(s[64] == ':');
    lemma_first_colon_unique(s, 64);
    assert(outpoint_txid_seg(s) =~= t);
    let sk = s.skip(65);
    assert(sk =~= v);
    assert forall|j: int| 0 <= j < v.len() implies v[j] != ':' by {
        assert(crate::text::is_dec_digit(v[j]));
    }
    lemma_first_colon_unique(v, v.len() as int);
    assert(outpoint_vout_seg(s) =~= v);
    assert(crate::text::is_dec_digit(v[0]));
    assert(v[0] != '+');
    assert(vout_digits(v) == v);
    lemma_dec_val_nonneg(v);
    lemma_hex_format_parse(t);
    lemma_canonical_dec_unique(v);
    assert(outpoint_str_of(bytes_of_hex(t), dec_val(v)) == lower_hex(t) + seq![':'] + v);
}

/// Formatting any 32-byte txid and 32-bit vout as an outpoint string and
/// parsing it back recovers the same values: the other inverse direction.
pub proof fn lemma_outpoint_format_parse(b: Seq<u8>, vout: int)
    requires
        b.len() == 32,
        0 <= vout <= u32::MAX as int,
    ensures
        is_valid_outpoint_str(outpoint_str_of(b, vout)),
        bytes_of_hex(outpoint_txid_seg(outpoint_str_of(b, vout))) == b,
        dec_val(vout_digits(outpoint_vout_seg(outpoint_str_of(b, vout)))) == vout,
{
    crate::text::lemma_dec_str_of_val(vout);
    lemma_hex_parse_format(b);
    lemma_outpoint_round_trip(hex_str_of(b), dec_str_of(vout));
    assert(outpoint_str_of(b, vout) == hex_str_of(b) + seq![':'] + dec_str_of(vout));
}

/// `rune_amount` is zero exactly when no balance is attached, provided any
/// attached balance is itself non-zero; otherwise it is the balance's value.
pub proof fn lemma_rune_amount_zero_iff_absent(u: Utxo)
    requires
        u.maybe_rune matches Some(b) ==> b.value != 0,
    ensures
        rune_amount_of(u) == 0 <==> u.maybe_rune is None,
        u.maybe_rune matches Some(b) ==> rune_amount_of(u) == b.value,
{
}

} // verus!

