//! The pool co-signing protocol: given a partially-signed transaction whose
//! inputs carry their previous outputs, finalize a Taproot key-spend witness
//! on every input whose outpoint the pool owns, leaving all others untouched.
//!
//! The remote signer is an asynchronous capability outside this library, so
//! the protocol is a session driven by the caller: `collect_prevouts` gathers
//! every input's previous output up front, `next_request` yields the BIP-341
//! digest of the next pool-owned input, and `provide_signature` finalizes
//! that input's witness with the signature the signer returned.

use vstd::prelude::*;

use bitcoin::consensus::deserialize;
use bitcoin::sighash::{Prevouts, SighashCache};
use bitcoin::{Amount, ScriptBuf, TapSighashType, Transaction, TxOut};

use crate::Utxo;
use crate::text::{dec_str_of, push_dec};
use crate::txid::Txid;

verus! {

/// A previous output backing a transaction input: its script and value.
#[derive(Debug)]
pub struct TxOutInfo {
    pub script_pubkey: Vec<u8>,
    pub value_sats: u64,
}

/// What a previous output says, as plain values.
pub open spec fn txout_rep(t: TxOutInfo) -> (Seq<u8>, u64) {
    (t.script_pubkey@, t.value_sats)
}

impl Clone for TxOutInfo {
    fn clone(&self) -> (r: Self)
        ensures
            txout_rep(r) == txout_rep(*self),
    {
        let script_pubkey = self.script_pubkey.clone();
        proof {
            assert(script_pubkey@ =~= self.script_pubkey@);
        }
        TxOutInfo { script_pubkey, value_sats: self.value_sats }
    }
}

/// The previous-output reference a transaction input spends.
#[derive(Debug)]
pub struct OutPointRef {
    pub txid: Txid,
    pub vout: u32,
}

/// Per-input auxiliary data of a partially-signed transaction.
#[derive(Debug)]
pub struct PsbtInput {
    pub witness_utxo: Option<TxOutInfo>,
    pub final_script_witness: Option<Vec<Vec<u8>>>,
}

/// A partially-signed transaction, as the plain values the protocol reads and
/// writes: the consensus-serialized unsigned transaction, its inputs'
/// previous-output references in input order, and the per-input auxiliary
/// data.
pub struct PartialTx {
    pub unsigned_tx: Vec<u8>,
    pub tx_inputs: Vec<OutPointRef>,
    pub inputs: Vec<PsbtInput>,
}

/// Whether a pool-owned UTXO and a transaction input reference the same
/// outpoint.
pub open spec fn outpoint_matches(u: Utxo, o: OutPointRef) -> bool {
    u.txid@ == o.txid@ && u.vout == o.vout
}

/// Whether some UTXO in `pool` references outpoint `o`.
pub open spec fn is_pool_input(pool: Seq<Utxo>, o: OutPointRef) -> bool {
    exists|k: int| 0 <= k < pool.len() && outpoint_matches(pool[k], o)
}

/// Linear scan of the pool's UTXOs for the given outpoint.
fn matches_pool(pool: &Vec<Utxo>, o: &OutPointRef) -> (r: bool)
    ensures
        r == is_pool_input(pool@, *o),
{
    let n = pool.len();
    let mut k: usize = 0;
    while k < n
        invariant
            k <= n,
            n == pool@.len(),
            forall|j: int| 0 <= j < k ==> !outpoint_matches(pool@[j], *o),
        decreases n - k,
    {
        if pool[k].txid.matches(&o.txid) && pool[k].vout == o.vout {
            proof {
                assert(outpoint_matches(pool@[k as int], *o));
            }
            return true;
        }
        k = k + 1;
    }
    false
}

/// The BIP-341 Taproot key-path signature hash, under the default sighash
/// type, of input `index` of the serialized transaction `tx`, committing to
/// all previous outputs `(script, value)` in input order.
pub uninterp spec fn taproot_key_spend_sighash(
    tx: Seq<u8>,
    prevouts: Seq<(Seq<u8>, u64)>,
    index: int,
) -> Seq<u8>;

/// Whether the BIP-341 digest computation succeeds on these arguments. Like
/// the digest itself it depends on the arguments alone: it fails exactly when
/// the bytes are not a consensus-valid transaction or the prevout list does
/// not fit the transaction's inputs and the index.
pub uninterp spec fn taproot_sighash_defined(
    tx: Seq<u8>,
    prevouts: Seq<(Seq<u8>, u64)>,
    index: int,
) -> bool;

/// The previous-output list as plain values.
pub open spec fn prevout_reps(p: Seq<TxOutInfo>) -> Seq<(Seq<u8>, u64)> {
    p.map(|i: int, t: TxOutInfo| txout_rep(t))
}

/// Relies on bitcoin's `SighashCache::taproot_key_spend_signature_hash`: the
/// BIP-341 key-spend digest is 32 bytes and a pure function of the serialized
/// unsigned transaction, the prevout scripts and values in input order, and
/// the input index; the sighash type is fixed here to the default one.
#[verifier::external_body]
fn compute_taproot_sighash(tx: &Vec<u8>, prevouts: &Vec<TxOutInfo>, index: usize) -> (r: Result<
    Vec<u8>,
    String,
>)
    ensures
        (r is Ok) == taproot_sighash_defined(tx@, prevout_reps(prevouts@), index as int),
        r matches Ok(d) ==> d@ == taproot_key_spend_sighash(
            tx@,
            prevout_reps(prevouts@),
            index as int,
        ) && d@.len() == 32,
{
    let t: Transaction = deserialize(tx.as_slice()).map_err(|e| e.to_string())?;
    let pv: Vec<TxOut> = prevouts.iter().map(|p: &TxOutInfo| TxOut {
        value: Amount::from_sat(p.value_sats),
        script_pubkey: ScriptBuf::from(p.script_pubkey.clone()),
    }).collect();
    let mut cache = SighashCache::new(&t);
    match cache.taproot_key_spend_signature_hash(index, &Prevouts::All(&pv), TapSighashType::Default) {
        Ok(h) => {
            let a: &[u8; 32] = h.as_ref();
            Ok(a.to_vec())
        },
        Err(e) => Err(e.to_string()),
    }
}

/// Gathers the declared previous output of every input, in input order.
/// Fails, touching nothing, exactly when some input lacks one.
pub fn collect_prevouts(tx: &PartialTx) -> (r: Result<Vec<TxOutInfo>, String>)
    ensures
        match r {
            Ok(p) => {
                &&& p@.len() == tx.inputs@.len()
                &&& forall|i: int|
                    0 <= i < tx.inputs@.len() ==> ((#[trigger] tx.inputs@[i]).witness_utxo
                        matches Some(w) && txout_rep(p@[i]) == txout_rep(w))
            },
            Err(e) => {
                &&& exists|i: int|
                    0 <= i < tx.inputs@.len() && (#[trigger] tx.inputs@[i]).witness_utxo is None
                &&& e@ == "witness_utxo required"@
            },
        },
{
    let n = tx.inputs.len();
    let mut p: Vec<TxOutInfo> = Vec::new();
    let mut i: usize = 0;
    while i < n
        invariant
            i <= n,
            n == tx.inputs@.len(),
            p@.len() == i,
            forall|j: int|
                0 <= j < i ==> ((#[trigger] tx.inputs@[j]).witness_utxo matches Some(w)
                    && txout_rep(p@[j]) == txout_rep(w)),
        decreases n - i,
    {
        match &tx.inputs[i].witness_utxo {
            Some(w) => p.push(w.clone()),
            None => {
                return Err(String::from_str("witness_utxo required"));
            },
        }
        i = i + 1;
    }
    Ok(p)
}

/// A finalized key-path-spend witness: a single element of 64 bytes.
pub open spec fn signed_form(w: Option<Vec<Vec<u8>>>) -> bool {
    w matches Some(v) && v@.len() == 1 && v@[0]@.len() == 64
}

/// One in-progress co-signing pass over a partial transaction. `cursor` is
/// the next input to examine; when `pending` holds, `cursor` is a pool-owned
/// input whose digest has been handed out and whose signature is awaited.
pub struct CosignSession {
    pub psbt: PartialTx,
    pub pool: Vec<Utxo>,
    pub prevouts: Vec<TxOutInfo>,
    pub cursor: usize,
    pub pending: bool,
    pub initial: Ghost<Seq<PsbtInput>>,
}

/// How input `i` may differ from its state when the session started: an
/// already-passed input the pool owns keeps its previous output and carries a
/// finalized key-spend witness; every other input is exactly as it was.
pub open spec fn input_state_ok(s: CosignSession, i: int) -> bool {
    if i < s.cursor && i < s.psbt.tx_inputs@.len() && is_pool_input(
        s.pool@,
        s.psbt.tx_inputs@[i],
    ) {
        &&& s.psbt.inputs@[i].witness_utxo == s.initial@[i].witness_utxo
        &&& signed_form(s.psbt.inputs@[i].final_script_witness)
    } else {
        s.psbt.inputs@[i] == s.initial@[i]
    }
}

/// The session invariant: the gathered prevouts mirror every input's declared
/// previous output, the cursor is in range, a pending input is pool-owned,
/// in bounds and still untouched, and every input is in an allowed state.
pub open spec fn session_inv(s: CosignSession) -> bool {
    &&& s.prevouts@.len() == s.psbt.inputs@.len()
    &&& s.initial@.len() == s.psbt.inputs@.len()
    &&& forall|i: int|
        0 <= i < s.psbt.inputs@.len() ==> ((#[trigger] s.psbt.inputs@[i]).witness_utxo
            matches Some(w) && txout_rep(s.prevouts@[i]) == txout_rep(w))
    &&& s.cursor <= s.psbt.tx_inputs@.len()
    &&& s.pending ==> {
        &&& s.cursor < s.psbt.tx_inputs@.len()
        &&& s.cursor < s.psbt.inputs@.len()
        &&& is_pool_input(s.pool@, s.psbt.tx_inputs@[s.cursor as int])
        &&& s.psbt.inputs@[s.cursor as int] == s.initial@[s.cursor as int]
    }
    &&& forall|i: int| 0 <= i < s.psbt.inputs@.len() ==> #[trigger] input_state_ok(s, i)
}

/// The message reported when a matched input index has no auxiliary data.
pub open spec fn index_bounds_msg(i: int, n: int) -> Seq<char> {
    "Input index "@ + dec_str_of(i) + " exceeds available inputs ("@ + dec_str_of(n) + ")"@
}

impl CosignSession {
    /// Opens a co-signing session over `psbt` on behalf of `pool`.
    /// `prevouts` must be the previous outputs `collect_prevouts` gathered
    /// from the same transaction.
    pub fn start(psbt: PartialTx, pool: Vec<Utxo>, prevouts: Vec<TxOutInfo>) -> (s: CosignSession)
        requires
            prevouts@.len() == psbt.inputs@.len(),
            forall|i: int|
                0 <= i < psbt.inputs@.len() ==> ((#[trigger] psbt.inputs@[i]).witness_utxo
                    matches Some(w) && txout_rep(prevouts@[i]) == txout_rep(w)),
        ensures
            session_inv(s),
            s.psbt == psbt,
            s.pool == pool,
            s.prevouts == prevouts,
            s.cursor == 0,
            !s.pending,
            s.initial@ == psbt.inputs@,
    {
        let s = CosignSession {
            initial: Ghost(psbt.inputs@),
            psbt,
            pool,
            prevouts,
            cursor: 0,
            pending: false,
        };
        proof {
            assert forall|i: int| 0 <= i < s.psbt.inputs@.len() implies #[trigger] input_state_ok(
                s,
                i,
            ) by {}
        }
        s
    }

    /// Scans forward from the cursor for the next input the pool owns and
    /// returns its BIP-341 key-spend digest, or `None` when the scan is
    /// complete. Fails, leaving the session exactly as it was, when a matched
    /// input has no auxiliary slot (with a message naming index and bound) or
    /// when the digest cannot be computed.
    pub fn next_request(&mut self) -> (r: Result<Option<Vec<u8>>, String>)
        requires
            session_inv(*old(self)),
            !old(self).pending,
        ensures
            match r {
                Ok(opt) => {
                    &&& session_inv(*final(self))
                    &&& final(self).psbt == old(self).psbt
                    &&& final(self).pool == old(self).pool
                    &&& final(self).prevouts == old(self).prevouts
                    &&& final(self).initial == old(self).initial
                    &&& forall|j: int|
                        old(self).cursor <= j < final(self).cursor ==> !is_pool_input(
                            old(self).pool@,
                            #[trigger] old(self).psbt.tx_inputs@[j],
                        )
                    &&& match opt {
                        Some(d) => {
                            &&& final(self).pending
                            &&& old(self).cursor <= final(self).cursor
                                < old(self).psbt.tx_inputs@.len()
                            &&& final(self).cursor < old(self).psbt.inputs@.len()
                            &&& is_pool_input(
                                old(self).pool@,
                                old(self).psbt.tx_inputs@[final(self).cursor as int],
                            )
                            &&& d@ == taproot_key_spend_sighash(
                                old(self).psbt.unsigned_tx@,
                                prevout_reps(old(self).prevouts@),
                                final(self).cursor as int,
                            )
                            &&& d@.len() == 32
                        },
                        None => {
                            &&& !final(self).pending
                            &&& final(self).cursor == old(self).psbt.tx_inputs@.len()
                        },
                    }
                },
                Err(e) => {
                    &&& *final(self) == *old(self)
                    &&& exists|m: int|
                        {
                            &&& old(self).cursor <= m < old(self).psbt.tx_inputs@.len()
                            &&& is_pool_input(
                                old(self).pool@,
                                #[trigger] old(self).psbt.tx_inputs@[m],
                            )
                            &&& forall|j: int|
                                old(self).cursor <= j < m ==> !is_pool_input(
                                    old(self).pool@,
                                    #[trigger] old(self).psbt.tx_inputs@[j],
                                )
                            &&& m >= old(self).psbt.inputs@.len() ==> e@ == index_bounds_msg(
                                m,
                                old(self).psbt.inputs@.len() as int,
                            )
                            &&& m < old(self).psbt.inputs@.len() ==> !taproot_sighash_defined(
                                old(self).psbt.unsigned_tx@,
                                prevout_reps(old(self).prevouts@),
                                m,
                            )
                        }
                },
            },
    {
        let n = self.psbt.tx_inputs.len();
        let mut i: usize = self.cursor;
        while i < n
            invariant
                *self == *old(self),
                session_inv(*self),
                !self.pending,
                self.cursor <= i <= n,
                n == self.psbt.tx_inputs@.len(),
                forall|j: int|
                    self.cursor <= j < i ==> !is_pool_input(
                        self.pool@,
                        #[trigger] self.psbt.tx_inputs@[j],
                    ),
            decreases n - i,
        {
            if matches_pool(&self.pool, &self.psbt.tx_inputs[i]) {
                if i >= self.psbt.inputs.len() {
                    let mut msg = String::from_str("Input index ");
                    push_dec(&mut msg, i as u128);
                    msg.append(" exceeds available inputs (");
                    push_dec(&mut msg, self.psbt.inputs.len() as u128);
                    msg.append(")");
                    proof {
                        reveal_strlit("Input index ");
                        reveal_strlit(" exceeds available inputs (");
                        reveal_strlit(")");
                        assert(msg@ =~= index_bounds_msg(
                            i as int,
                            self.psbt.inputs@.len() as int,
                        ));
                    }
                    return Err(msg);
                }
                let d = match compute_taproot_sighash(&self.psbt.unsigned_tx, &self.prevouts, i) {
                    Ok(d) => d,
                    Err(e) => {
                        return Err(e);
                    },
                };
                let ghost pre = *self;
                self.cursor = i;
                self.pending = true;
                proof {
                    assert forall|k: int| 0 <= k < self.psbt.inputs@.len() implies
                        #[trigger] input_state_ok(*self, k) by {
                        assert(input_state_ok(pre, k));
                    }
                    assert(input_state_ok(*self, i as int));
                    assert(self.psbt.inputs@[i as int] == self.initial@[i as int]);
                    assert(session_inv(*self));
                }
                return Ok(Some(d));
            }
            i = i + 1;
        }
        let ghost pre = *self;
        self.cursor = n;
        proof {
            assert forall|k: int| 0 <= k < self.psbt.inputs@.len() implies
                #[trigger] input_state_ok(*self, k) by {
                assert(input_state_ok(pre, k));
            }
            assert(session_inv(*self));
        }
        Ok(None)
    }

    /// Finalizes the witness of the input the last request addressed: a
    /// single witness element holding exactly the 64-byte signature the
    /// remote signer returned, overwriting any prior witness.
    pub fn provide_signature(&mut self, signature: Vec<u8>)
        requires
            session_inv(*old(self)),
            old(self).pending,
            signature@.len() == 64,
        ensures
            session_inv(*final(self)),
            !final(self).pending,
            final(self).cursor == old(self).cursor + 1,
            final(self).pool == old(self).pool,
            final(self).prevouts == old(self).prevouts,
            final(self).initial == old(self).initial,
            final(self).psbt.unsigned_tx == old(self).psbt.unsigned_tx,
            final(self).psbt.tx_inputs == old(self).psbt.tx_inputs,
            final(self).psbt.inputs@.len() == old(self).psbt.inputs@.len(),
            forall|j: int|
                0 <= j < old(self).psbt.inputs@.len() && j != old(self).cursor
                    ==> final(self).psbt.inputs@[j] == old(self).psbt.inputs@[j],
            final(self).psbt.inputs@[old(self).cursor as int].witness_utxo
                == old(self).psbt.inputs@[old(self).cursor as int].witness_utxo,
            final(self).psbt.inputs@[old(self).cursor as int].final_script_witness matches Some(w)
                && w@.len() == 1 && w@[0] == signature,
    {
        let i = self.cursor;
        let n = self.psbt.tx_inputs.len();
        proof {
            assert(i < n);
        }
        let mut w: Vec<Vec<u8>> = Vec::new();
        w.push(signature);
        let mut taken = PsbtInput { witness_utxo: None, final_script_witness: None };
        self.psbt.inputs.set_and_swap(i, &mut taken);
        let mut updated = PsbtInput {
            witness_utxo: taken.witness_utxo,
            final_script_witness: Some(w),
        };
        self.psbt.inputs.set_and_swap(i, &mut updated);
        self.cursor = i + 1;
        self.pending = false;
        proof {
            let pre = *old(self);
            assert(self.psbt.inputs@ =~= pre.psbt.inputs@.update(
                i as int,
                self.psbt.inputs@[i as int],
            ));
            assert(signed_form(self.psbt.inputs@[i as int].final_script_witness));
            assert forall|k: int| 0 <= k < self.psbt.inputs@.len() implies
                #[trigger] input_state_ok(*self, k) by {
                assert(input_state_ok(pre, k));
                if k != i as int {
                    assert(self.psbt.inputs@[k] == pre.psbt.inputs@[k]);
                }
            }
        }
    }

    /// Whether every input has been scanned and no signature is outstanding.
    pub fn finished(&self) -> (r: bool)
        ensures
            r == (self.cursor == self.psbt.tx_inputs@.len() && !self.pending),
    {
        self.cursor == self.psbt.tx_inputs.len() && !self.pending
    }
}

/// After a completed session, exactly the inputs whose outpoints the pool
/// owns carry a finalized single-element 64-byte key-spend witness (their
/// previous outputs untouched), and every other input is exactly as it was
/// when the session started.
pub proof fn lemma_cosign_complete(s: CosignSession)
    requires
        session_inv(s),
        s.cursor == s.psbt.tx_inputs@.len(),
        !s.pending,
    ensures
        forall|i: int|
            0 <= i < s.psbt.inputs@.len() && i < s.psbt.tx_inputs@.len() && is_pool_input(
                s.pool@,
                s.psbt.tx_inputs@[i],
            ) ==> signed_form((#[trigger] s.psbt.inputs@[i]).final_script_witness)
                && s.psbt.inputs@[i].witness_utxo == s.initial@[i].witness_utxo,
        forall|i: int|
            0 <= i < s.psbt.inputs@.len() && i < s.psbt.tx_inputs@.len() && !is_pool_input(
                s.pool@,
                s.psbt.tx_inputs@[i],
            ) ==> (#[trigger] s.psbt.inputs@[i]) == s.initial@[i],
        forall|i: int|
            s.psbt.tx_inputs@.len() <= i < s.psbt.inputs@.len() ==> (
            #[trigger] s.psbt.inputs@[i]) == s.initial@[i],
{
    assert forall|i: int|
        0 <= i < s.psbt.inputs@.len() && i < s.psbt.tx_inputs@.len() && is_pool_input(
            s.pool@,
            s.psbt.tx_inputs@[i],
        ) implies signed_form((#[trigger] s.psbt.inputs@[i]).final_script_witness)
        && s.psbt.inputs@[i].witness_utxo == s.initial@[i].witness_utxo by {
        assert(input_state_ok(s, i));
    }
    assert forall|i: int|
        0 <= i < s.psbt.inputs@.len() && i < s.psbt.tx_inputs@.len() && !is_pool_input(
            s.pool@,
            s.psbt.tx_inputs@[i],
        ) implies (#[trigger] s.psbt.inputs@[i]) == s.initial@[i] by {
        assert(input_state_ok(s, i));
    }
    assert forall|i: int|
        s.psbt.tx_inputs@.len() <= i < s.psbt.inputs@.len() implies (#[trigger] s.psbt.inputs@[i])
        == s.initial@[i] by {
        assert(input_state_ok(s, i));
    }
}

/// The key-spend digest is a pure function: two computations over the same
/// serialized transaction, the same prevout list, and the same input index
/// agree, whenever and wherever they are made.
pub proof fn lemma_sighash_deterministic(
    tx: Seq<u8>,
    prevouts: Seq<(Seq<u8>, u64)>,
    index: int,
    d1: Seq<u8>,
    d2: Seq<u8>,
)
    requires
        d1 == taproot_key_spend_sighash(tx, prevouts, index),
        d2 == taproot_key_spend_sighash(tx, prevouts, index),
    ensures
        d1 == d2,
{
}

} // verus!

