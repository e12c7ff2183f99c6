//! The fungible-token identifier and its canonical `"block:index"` text form.

use vstd::prelude::*;

use crate::text::{
    dec_str_of, dec_val, find_colon, first_colon, is_dec_bounded, lemma_canonical_dec_unique,
    lemma_dec_str_of_val, lemma_first_colon_unique, parse_dec_range, push_dec,
};

verus! {

/// Identifier of a fungible token: either the native coin (the zero sentinel)
/// or a bucketed asset reference, a block-height and index pair.
#[derive(Copy, Clone, Debug, PartialEq, Eq, Structural)]
pub struct CoinId {
    pub block: u64,
    pub tx: u32,
}

/// The block segment of a coin id string: everything before the first ':'.
pub open spec fn coin_block_seg(s: Seq<char>) -> Seq<char> {
    s.take(first_colon(s))
}

/// The index segment of a coin id string: everything after the first ':'.
pub open spec fn coin_tx_seg(s: Seq<char>) -> Seq<char> {
    s.skip(first_colon(s) + 1)
}

/// A parseable coin id string: decimal block height, ':', decimal index.
pub open spec fn is_valid_coin_id_str(s: Seq<char>) -> bool {
    &&& first_colon(s) < s.len()
    &&& is_dec_bounded(coin_block_seg(s), u64::MAX as int)
    &&& is_dec_bounded(coin_tx_seg(s), u32::MAX as int)
}

/// The canonical text of a coin id.
pub open spec fn coin_id_str_of(id: CoinId) -> Seq<char> {
    dec_str_of(id.block as int) + seq![':'] + dec_str_of(id.tx as int)
}

impl CoinId {
    /// The sentinel identifier of the native coin.
    pub fn btc() -> (r: CoinId)
        ensures
            r.block == 0 && r.tx == 0,
    {
        CoinId { block: 0, tx: 0 }
    }

    /// Parses the canonical `"block:index"` form; fails exactly when the
    /// string is not a decimal pair within the 64- and 32-bit bounds.
    pub fn from_str(s: &str) -> (r: Result<CoinId, String>)
        ensures
            match r {
                Ok(c) => {
                    &&& is_valid_coin_id_str(s@)
                    &&& c.block as int == dec_val(coin_block_seg(s@))
                    &&& c.tx as int == dec_val(coin_tx_seg(s@))
                },
                Err(e) => !is_valid_coin_id_str(s@) && e@ == "Invalid coin id."@,
            },
    {
        let n = s.unicode_len();
        let c1 = find_colon(s, 0);
        proof {
            lemma_first_colon_unique(s@, c1 as int);
            assert(coin_block_seg(s@) =~= s@.subrange(0, c1 as int));
        }
        if c1 == n {
            return Err(String::from_str("Invalid coin id."));
        }
        proof {
            assert(coin_tx_seg(s@) =~= s@.subrange(c1 + 1, n as int));
        }
        let block = match parse_dec_range(s, 0, c1, u64::MAX) {
            Some(b) => b,
            None => {
                return Err(String::from_str("Invalid coin id."));
            },
        };
        let tx = match parse_dec_range(s, c1 + 1, n, u32::MAX as u64) {
            Some(t) => t as u32,
            None => {
                return Err(String::from_str("Invalid coin id."));
            },
        };
        Ok(CoinId { block, tx })
    }

    /// The canonical `"block:index"` text of this identifier.
    pub fn to_text(&self) -> (r: String)
        ensures
            r@ == coin_id_str_of(*self),
    {
        let mut out = String::new();
        push_dec(&mut out, self.block as u128);
        out.append(":");
        push_dec(&mut out, self.tx as u128);
        proof {
            reveal_strlit(":");
            assert(out@ =~= coin_id_str_of(*self));
        }
        out
    }
}

/// The canonical text of a coin id parses back to the same identifier:
/// `to_text` and `from_str` are mutual inverses.
pub proof fn lemma_coin_id_round_trip(id: CoinId)
    ensures
        is_valid_coin_id_str(coin_id_str_of(id)),
        dec_val(coin_block_seg(coin_id_str_of(id))) == id.block as int,
        dec_val(coin_tx_seg(coin_id_str_of(id))) == id.tx as int,
{
    let b = dec_str_of(id.block as int);
    let t = dec_str_of(id.tx as int);
    let s = b + seq![':'] + t;
    lemma_dec_str_of_val(id.block as int);
    lemma_dec_str_of_val(id.tx as int);
    assert forall|j: int| 0 <= j < b.len() implies s[j] != ':' by {
        assert(s[j] == b[j]);
        assert(crate::text::is_dec_digit(b[j]));
    }
    assert(s[b.len() as int] == ':');
    lemma_first_colon_unique(s, b.len() as int);
    assert(coin_block_seg(s) =~= b);
    assert(coin_tx_seg(s) =~= t);
    lemma_canonical_dec_unique(b);
    lemma_canonical_dec_unique(t);
}

} // verus!
