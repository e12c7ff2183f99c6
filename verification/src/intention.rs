//! The intention model: structured trade instructions referencing UTXOs and
//! coin movements, grouped into an ordered, signable instruction set.

use vstd::prelude::*;

use crate::CoinBalance;
use crate::coin_id::coin_id_str_of;
use crate::text::{dec_str_of, push_dec};

verus! {

/// A coin movement into an intention: the paying address and the balance.
pub struct InputCoin {
    pub from: String,
    pub coin: CoinBalance,
}

/// A coin movement out of an intention: the receiving address and the balance.
pub struct OutputCoin {
    pub to: String,
    pub coin: CoinBalance,
}

/// One exchange action: which pool it addresses, which pool UTXOs it spends
/// and receives, and which coins move in and out. The `nonce` orders a pool's
/// successive intentions.
pub struct Intention {
    pub exchange_id: String,
    pub action: String,
    pub action_params: String,
    pub pool_address: String,
    pub nonce: u64,
    pub pool_utxo_spend: Vec<String>,
    pub pool_utxo_receive: Vec<String>,
    pub input_coins: Vec<InputCoin>,
    pub output_coins: Vec<OutputCoin>,
}

/// One signable instruction bundle; the order of `intentions` determines
/// transaction input/output ordering and is preserved everywhere.
pub struct IntentionSet {
    pub initiator_address: String,
    pub tx_fee_in_sats: u64,
    pub intentions: Vec<Intention>,
}

/// A raw character sequence between JSON quotes.
pub open spec fn json_str(s: Seq<char>) -> Seq<char> {
    seq!['"'] + s + seq!['"']
}

/// Comma-joined list items.
pub open spec fn json_join(items: Seq<Seq<char>>) -> Seq<char>
    decreases items.len(),
{
    if items.len() == 0 {
        Seq::empty()
    } else if items.len() == 1 {
        items[0]
    } else {
        items[0] + seq![','] + json_join(items.skip(1))
    }
}

/// A bracketed, comma-joined JSON array.
pub open spec fn json_array(items: Seq<Seq<char>>) -> Seq<char> {
    seq!['['] + json_join(items) + seq![']']
}

/// The canonical text of a coin balance: the coin id in its string form and
/// the value as a number.
pub open spec fn json_of_coin_balance(b: CoinBalance) -> Seq<char> {
    "{\"id\":\""@ + coin_id_str_of(b.id) + "\",\"value\":"@ + dec_str_of(b.value as int) + "}"@
}

pub open spec fn json_of_input_coin(c: InputCoin) -> Seq<char> {
    "{\"from\":"@ + json_str(c.from@) + ",\"coin\":"@ + json_of_coin_balance(c.coin) + "}"@
}

pub open spec fn json_of_output_coin(c: OutputCoin) -> Seq<char> {
    "{\"to\":"@ + json_str(c.to@) + ",\"coin\":"@ + json_of_coin_balance(c.coin) + "}"@
}

pub open spec fn json_of_intention(x: Intention) -> Seq<char> {
    "{\"exchange_id\":"@ + json_str(x.exchange_id@) + ",\"action\":"@ + json_str(x.action@)
        + ",\"action_params\":"@ + json_str(x.action_params@) + ",\"pool_address\":"@ + json_str(
        x.pool_address@,
    ) + ",\"nonce\":"@ + dec_str_of(x.nonce as int) + ",\"pool_utxo_spend\":"@ + json_array(
        x.pool_utxo_spend@.map(|i: int, s: String| json_str(s@)),
    ) + ",\"pool_utxo_receive\":"@ + json_array(
        x.pool_utxo_receive@.map(|i: int, s: String| json_str(s@)),
    ) + ",\"input_coins\":"@ + json_array(
        x.input_coins@.map(|i: int, c: InputCoin| json_of_input_coin(c)),
    ) + ",\"output_coins\":"@ + json_array(
        x.output_coins@.map(|i: int, c: OutputCoin| json_of_output_coin(c)),
    ) + "}"@
}

pub open spec fn json_of_intention_set(s: IntentionSet) -> Seq<char> {
    "{\"initiator_address\":"@ + json_str(s.initiator_address@) + ",\"tx_fee_in_sats\":"@
        + dec_str_of(s.tx_fee_in_sats as int) + ",\"intentions\":"@ + json_array(
        s.intentions@.map(|i: int, x: Intention| json_of_intention(x)),
    ) + "}"@
}

/// Appending one more item extends a comma-joined list at its tail.
proof fn lemma_json_join_push(items: Seq<Seq<char>>, x: Seq<char>)
    requires
        items.len() >= 1,
    ensures
        json_join(items.push(x)) == json_join(items) + seq![','] + x,
    decreases items.len(),
{
    let p = items.push(x);
    if items.len() == 1 {
        assert(p.skip(1) =~= seq![x]);
        assert(json_join(seq![x]) == x);
        assert(p[0] == items[0]);
        assert(json_join(p) == items[0] + seq![','] + x);
        assert(json_join(items) == items[0]);
    } else {
        assert(p.skip(1) =~= items.skip(1).push(x));
        lemma_json_join_push(items.skip(1), x);
        assert(p[0] == items[0]);
        assert(json_join(p) == items[0] + seq![','] + (json_join(items.skip(1)) + seq![','] + x));
        assert(items[0] + seq![','] + (json_join(items.skip(1)) + seq![','] + x) =~= (items[0]
            + seq![','] + json_join(items.skip(1))) + seq![','] + x);
    }
}

/// Writes `s` between quotes. The result is well-formed JSON when `s` needs
/// no escaping.
fn push_json_str(out: &mut String, s: &str)
    ensures
        final(out)@ == old(out)@ + json_str(s@),
{
    out.append("\"");
    out.append(s);
    out.append("\"");
    proof {
        reveal_strlit("\"");
        assert(out@ =~= old(out)@ + json_str(s@));
    }
}

fn push_coin_balance(out: &mut String, b: &CoinBalance)
    ensures
        final(out)@ == old(out)@ + json_of_coin_balance(*b),
{
    out.append("{\"id\":\"");
    push_dec(out, b.id.block as u128);
    out.append(":");
    push_dec(out, b.id.tx as u128);
    out.append("\",\"value\":");
    push_dec(out, b.value);
    out.append("}");
    proof {
        reveal_strlit(":");
        assert(out@ =~= old(out)@ + json_of_coin_balance(*b));
    }
}

fn push_input_coin(out: &mut String, c: &InputCoin)
    ensures
        final(out)@ == old(out)@ + json_of_input_coin(*c),
{
    out.append("{\"from\":");
    push_json_str(out, c.from.as_str());
    out.append(",\"coin\":");
    push_coin_balance(out, &c.coin);
    out.append("}");
    proof {
        assert(out@ =~= old(out)@ + json_of_input_coin(*c));
    }
}

fn push_output_coin(out: &mut String, c: &OutputCoin)
    ensures
        final(out)@ == old(out)@ + json_of_output_coin(*c),
{
    out.append("{\"to\":");
    push_json_str(out, c.to.as_str());
    out.append(",\"coin\":");
    push_coin_balance(out, &c.coin);
    out.append("}");
    proof {
        assert(out@ =~= old(out)@ + json_of_output_coin(*c));
    }
}

fn push_str_array(out: &mut String, items: &Vec<String>)
    ensures
        final(out)@ == old(out)@ + json_array(items@.map(|i: int, s: String| json_str(s@))),
{
    let ghost m = items@.map(|i: int, s: String| json_str(s@));
    out.append("[");
    proof {
        reveal_strlit("[");
        assert(m.take(0) =~= Seq::<Seq<char>>::empty());
        assert(out@ =~= old(out)@ + seq!['['] + json_join(m.take(0)));
    }
    let n = items.len();
    let mut i: usize = 0;
    while i < n
        invariant
            i <= n,
            n == items@.len(),
            m == items@.map(|k: int, s: String| json_str(s@)),
            out@ == old(out)@ + seq!['['] + json_join(m.take(i as int)),
        decreases n - i,
    {
        if i > 0 {
            out.append(",");
        }
        push_json_str(out, items[i].as_str());
        proof {
            reveal_strlit(",");
            reveal_strlit("[");
            assert(m.take(i + 1 as int) =~= m.take(i as int).push(m[i as int]));
            assert(m[i as int] == json_str(items@[i as int]@));
            if i > 0 {
                lemma_json_join_push(m.take(i as int), m[i as int]);
            } else {
                assert(m.take(1) =~= seq![m[0]]);
                assert(json_join(seq![m[0]]) == m[0]);
            }
            assert(out@ =~= old(out)@ + seq!['['] + json_join(m.take(i + 1 as int)));
        }
        i = i + 1;
    }
    out.append("]");
    proof {
        reveal_strlit("[");
        reveal_strlit("]");
        assert(m.take(n as int) =~= m);
        assert(out@ =~= old(out)@ + json_array(m));
    }
}

fn push_input_coins(out: &mut String, items: &Vec<InputCoin>)
    ensures
        final(out)@ == old(out)@ + json_array(
            items@.map(|i: int, c: InputCoin| json_of_input_coin(c)),
        ),
{
    let ghost m = items@.map(|i: int, c: InputCoin| json_of_input_coin(c));
    out.append("[");
    proof {
        reveal_strlit("[");
        assert(m.take(0) =~= Seq::<Seq<char>>::empty());
        assert(out@ =~= old(out)@ + seq!['['] + json_join(m.take(0)));
    }
    let n = items.len();
    let mut i: usize = 0;
    while i < n
        invariant
            i <= n,
            n == items@.len(),
            m == items@.map(|k: int, c: InputCoin| json_of_input_coin(c)),
            out@ == old(out)@ + seq!['['] + json_join(m.take(i as int)),
        decreases n - i,
    {
        if i > 0 {
            out.append(",");
        }
        push_input_coin(out, &items[i]);
        proof {
            reveal_strlit(",");
            reveal_strlit("[");
            assert(m.take(i + 1 as int) =~= m.take(i as int).push(m[i as int]));
            if i > 0 {
                lemma_json_join_push(m.take(i as int), m[i as int]);
            } else {
                assert(m.take(1) =~= seq![m[0]]);
                assert(json_join(seq![m[0]]) == m[0]);
            }
            assert(out@ =~= old(out)@ + seq!['['] + json_join(m.take(i + 1 as int)));
        }
        i = i + 1;
    }
    out.append("]");
    proof {
        reveal_strlit("[");
        reveal_strlit("]");
        assert(m.take(n as int) =~= m);
        assert(out@ =~= old(out)@ + json_array(m));
    }
}

fn push_output_coins(out: &mut String, items: &Vec<OutputCoin>)
    ensures
        final(out)@ == old(out)@ + json_array(
            items@.map(|i: int, c: OutputCoin| json_of_output_coin(c)),
        ),
{
    let ghost m = items@.map(|i: int, c: OutputCoin| json_of_output_coin(c));
    out.append("[");
    proof {
        reveal_strlit("[");
        assert(m.take(0) =~= Seq::<Seq<char>>::empty());
        assert(out@ =~= old(out)@ + seq!['['] + json_join(m.take(0)));
    }
    let n = items.len();
    let mut i: usize = 0;
    while i < n
        invariant
            i <= n,
            n == items@.len(),
            m == items@.map(|k: int, c: OutputCoin| json_of_output_coin(c)),
            out@ == old(out)@ + seq!['['] + json_join(m.take(i as int)),
        decreases n - i,
    {
        if i > 0 {
            out.append(",");
        }
        push_output_coin(out, &items[i]);
        proof {
            reveal_strlit(",");
            reveal_strlit("[");
            assert(m.take(i + 1 as int) =~= m.take(i as int).push(m[i as int]));
            if i > 0 {
                lemma_json_join_push(m.take(i as int), m[i as int]);
            } else {
                assert(m.take(1) =~= seq![m[0]]);
                assert(json_join(seq![m[0]]) == m[0]);
            }
            assert(out@ =~= old(out)@ + seq!['['] + json_join(m.take(i + 1 as int)));
        }
        i = i + 1;
    }
    out.append("]");
    proof {
        reveal_strlit("[");
        reveal_strlit("]");
        assert(m.take(n as int) =~= m);
        assert(out@ =~= old(out)@ + json_array(m));
    }
}

impl Intention {
    /// The canonical JSON text of this intention, fields in declaration
    /// order, list order preserved. Well-formed JSON when every string field
    /// is free of characters JSON would escape.
    pub fn to_json(&self) -> (r: String)
        ensures
            r@ == json_of_intention(*self),
    {
        let mut out = String::new();
        out.append("{\"exchange_id\":");
        push_json_str(&mut out, self.exchange_id.as_str());
        out.append(",\"action\":");
        push_json_str(&mut out, self.action.as_str());
        out.append(",\"action_params\":");
        push_json_str(&mut out, self.action_params.as_str());
        out.append(",\"pool_address\":");
        push_json_str(&mut out, self.pool_address.as_str());
        out.append(",\"nonce\":");
        push_dec(&mut out, self.nonce as u128);
        out.append(",\"pool_utxo_spend\":");
        push_str_array(&mut out, &self.pool_utxo_spend);
        out.append(",\"pool_utxo_receive\":");
        push_str_array(&mut out, &self.pool_utxo_receive);
        out.append(",\"input_coins\":");
        push_input_coins(&mut out, &self.input_coins);
        out.append(",\"output_coins\":");
        push_output_coins(&mut out, &self.output_coins);
        out.append("}");
        proof {
            assert(out@ =~= json_of_intention(*self));
        }
        out
    }
}

impl IntentionSet {
    /// The canonical JSON text of this instruction bundle: fields in
    /// declaration order, the order of `intentions` and of every nested list
    /// preserved exactly. Well-formed JSON when every string field is free
    /// of characters JSON would escape.
    pub fn to_json(&self) -> (r: String)
        ensures
            r@ == json_of_intention_set(*self),
    {
        let ghost m = self.intentions@.map(|i: int, x: Intention| json_of_intention(x));
        let mut out = String::new();
        out.append("{\"initiator_address\":");
        push_json_str(&mut out, self.initiator_address.as_str());
        out.append(",\"tx_fee_in_sats\":");
        push_dec(&mut out, self.tx_fee_in_sats as u128);
        out.append(",\"intentions\":");
        out.append("[");
        let n = self.intentions.len();
        let ghost pre = out@;
        proof {
            assert(m.take(0) =~= Seq::<Seq<char>>::empty());
            assert(out@ =~= pre + json_join(m.take(0)));
        }
        let mut i: usize = 0;
        while i < n
            invariant
                i <= n,
                n == self.intentions@.len(),
                m == self.intentions@.map(|k: int, x: Intention| json_of_intention(x)),
                out@ == pre + json_join(m.take(i as int)),
            decreases n - i,
        {
            if i > 0 {
                out.append(",");
            }
            push_intention(&mut out, &self.intentions[i]);
            proof {
                reveal_strlit(",");
                assert(m.take(i + 1 as int) =~= m.take(i as int).push(m[i as int]));
                if i > 0 {
                    lemma_json_join_push(m.take(i as int), m[i as int]);
                } else {
                    assert(m.take(1) =~= seq![m[0]]);
                    assert(json_join(seq![m[0]]) == m[0]);
                }
                assert(out@ =~= pre + json_join(m.take(i + 1 as int)));
            }
            i = i + 1;
        }
        out.append("]}");
        proof {
            reveal_strlit("[");
            reveal_strlit("]");
            reveal_strlit("}");
            reveal_strlit("]}");
            assert(m.take(n as int) =~= m);
            assert(out@ =~= json_of_intention_set(*self));
        }
        out
    }
}

/// Writes one intention's JSON; the loop above needs the call separate from
/// the method so the borrow of `out` is plain.
fn push_intention(out: &mut String, x: &Intention)
    ensures
        final(out)@ == old(out)@ + json_of_intention(*x),
{
    let t = x.to_json();
    out.append(t.as_str());
}

} // verus!
