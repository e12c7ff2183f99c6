use ree_types::{CoinBalance, CoinId, Txid, Utxo};

const TXID_A: &str = "4b004c33c5b7bce9a8f5a3a0dab48dd47e33486a8cea5f63ef558849f5604b88";

#[test]
fn test_outpoint_round_trip() {
    let s = format!("{}:1", TXID_A);
    let u = Utxo::try_from(&s, None, 1000).expect("valid outpoint");
    assert_eq!(u.outpoint(), s);
    assert_eq!(u.vout, 1);
    assert_eq!(u.sats, 1000);
}

#[test]
fn test_outpoint_round_trip_case_normalized() {
    let upper = format!("{}:42", TXID_A.to_uppercase());
    let u = Utxo::try_from(&upper, None, 0).expect("valid outpoint");
    assert_eq!(u.outpoint(), upper.to_lowercase());
}

#[test]
fn test_outpoint_normalizes_vout() {
    // Rust's unsigned grammar accepts a leading '+' and leading zeros; the
    // formatted outpoint is canonical.
    let u = Utxo::try_from(&format!("{}:+007", TXID_A), None, 0).expect("valid outpoint");
    assert_eq!(u.outpoint(), format!("{}:7", TXID_A));
}

#[test]
fn test_try_from_rejects_missing_colon() {
    let e = Utxo::try_from("deadbeef", None, 0).unwrap_err();
    assert_eq!(e, "Invalid txid in outpoint.");
    // A valid txid with no colon at all fails on the missing vout instead.
    let e = Utxo::try_from(TXID_A, None, 0).unwrap_err();
    assert_eq!(e, "Invalid vout in outpoint");
}

#[test]
fn test_try_from_rejects_bad_txid() {
    // Wrong length.
    let e = Utxo::try_from("4b004c:0", None, 0).unwrap_err();
    assert_eq!(e, "Invalid txid in outpoint.");
    // Right length, one non-hex character.
    let mut bad = String::from(&TXID_A[..63]);
    bad.push('g');
    let e = Utxo::try_from(&format!("{}:0", bad), None, 0).unwrap_err();
    assert_eq!(e, "Invalid txid in outpoint.");
    // Empty string.
    let e = Utxo::try_from("", None, 0).unwrap_err();
    assert_eq!(e, "Invalid txid in outpoint.");
}

#[test]
fn test_try_from_rejects_bad_vout() {
    let e = Utxo::try_from(&format!("{}:x", TXID_A), None, 0).unwrap_err();
    assert_eq!(e, "Invalid vout in outpoint.");
    let e = Utxo::try_from(&format!("{}:", TXID_A), None, 0).unwrap_err();
    assert_eq!(e, "Invalid vout in outpoint.");
    // One past u32::MAX.
    let e = Utxo::try_from(&format!("{}:4294967296", TXID_A), None, 0).unwrap_err();
    assert_eq!(e, "Invalid vout in outpoint.");
    // u32::MAX itself is fine.
    let u = Utxo::try_from(&format!("{}:4294967295", TXID_A), None, 0).unwrap();
    assert_eq!(u.vout, u32::MAX);
}

#[test]
fn test_try_from_ignores_text_after_second_colon() {
    let u = Utxo::try_from(&format!("{}:3:junk", TXID_A), None, 0).expect("parses");
    assert_eq!(u.outpoint(), format!("{}:3", TXID_A));
}

#[test]
fn test_rune_amount() {
    let with = Utxo::try_from(
        &format!("{}:0", TXID_A),
        Some(CoinBalance { id: CoinId::from_str("840000:846").unwrap(), value: 959_000_000 }),
        546,
    )
    .unwrap();
    assert_eq!(with.rune_amount(), 959_000_000);
    let without = Utxo::try_from(&format!("{}:0", TXID_A), None, 546).unwrap();
    assert_eq!(without.rune_amount(), 0);
}

#[test]
fn test_txid_text_round_trip() {
    let t = Txid::from_text(TXID_A).expect("valid txid");
    assert_eq!(t.to_text(), TXID_A);
    assert!(Txid::from_text("1234").is_none());
}

#[test]
fn test_txid_from_bytes() {
    let t = Txid::from_bytes(vec![0xab; 32]).expect("32 bytes");
    assert_eq!(t.byte_len(), 32);
    assert_eq!(t.to_text(), "ab".repeat(32));
    assert_eq!(Txid::from_bytes(vec![1; 31]).unwrap_err(), "A txid holds exactly 32 bytes.");
    assert!(Txid::from_bytes(Vec::new()).is_err());
}

#[test]
fn test_outpoint_round_trip_extreme_vout() {
    let s = format!("{}:4294967295", TXID_A);
    let u = Utxo::try_from(&s, None, 0).unwrap();
    assert_eq!(u.outpoint(), s);
    let z = format!("{}:0", TXID_A);
    assert_eq!(Utxo::try_from(&z, None, 0).unwrap().outpoint(), z);
}

#[test]
fn test_coin_id_extreme_values() {
    let c = CoinId::from_str("18446744073709551615:4294967295").unwrap();
    assert_eq!(c.block, u64::MAX);
    assert_eq!(c.tx, u32::MAX);
    assert_eq!(c.to_text(), "18446744073709551615:4294967295");
    assert!(CoinId::from_str("18446744073709551616:0").is_err());
}

#[test]
fn test_coin_id() {
    let c = CoinId::from_str("868703:142").unwrap();
    assert_eq!(c.block, 868703);
    assert_eq!(c.tx, 142);
    assert_eq!(c.to_text(), "868703:142");
    let b = CoinId::btc();
    assert_eq!(b.block, 0);
    assert_eq!(b.tx, 0);
    assert_eq!(b.to_text(), "0:0");
    assert_eq!(CoinId::from_str("").unwrap_err(), "Invalid coin id.");
    assert_eq!(CoinId::from_str("868703").unwrap_err(), "Invalid coin id.");
    assert!(CoinId::from_str("a:1").is_err());
    assert!(CoinId::from_str("1:b").is_err());
    assert!(CoinId::from_str("1:4294967296").is_err());
}
