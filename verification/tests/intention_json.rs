use ree_types::intention::{InputCoin, Intention, IntentionSet, OutputCoin};
use ree_types::{CoinBalance, CoinId};

fn swap_chain_set() -> IntentionSet {
    IntentionSet {
        initiator_address: "bc1plvgrpk6mxwyppvqa5j275ujatn8qgs2dcm8m3r2w7sfkn395x6us9l5qdj"
            .to_string(),
        tx_fee_in_sats: 410,
        intentions: vec![
            Intention {
                exchange_id: "RICH_SWAP".to_string(),
                action: "swap".to_string(),
                action_params: String::new(),
                pool_address: "bc1ptnxf8aal3apeg8r4zysr6k2mhadg833se2dm4nssl7drjlqdh2jqa4tk3p"
                    .to_string(),
                nonce: 5,
                pool_utxo_spend: vec![
                    "17616a9d2258c41bea2175e64ecc2e5fc45ae18be5c9003e058cb0bb85301fd8:0"
                        .to_string(),
                ],
                pool_utxo_receive: vec![
                    "0cec5e1ac7688744dc7af59e8e3cd7be794b0f6dfec9357181759dc4c9c9e541:0"
                        .to_string(),
                ],
                input_coins: vec![InputCoin {
                    from: "bc1plvgrpk6mxwyppvqa5j275ujatn8qgs2dcm8m3r2w7sfkn395x6us9l5qdj"
                        .to_string(),
                    coin: CoinBalance {
                        id: CoinId::from_str("840000:846").unwrap(),
                        value: 10_000_000,
                    },
                }],
                output_coins: vec![OutputCoin {
                    to: "bc1pu3pv54uxfps00a8ydle67fd3rktz090l07lyg7wadurq4h0lpjhqnet990"
                        .to_string(),
                    coin: CoinBalance { id: CoinId::btc(), value: 25_523 },
                }],
            },
            Intention {
                exchange_id: "RICH_SWAP".to_string(),
                action: "swap".to_string(),
                action_params: String::new(),
                pool_address: "bc1pu3pv54uxfps00a8ydle67fd3rktz090l07lyg7wadurq4h0lpjhqnet990"
                    .to_string(),
                nonce: 9,
                pool_utxo_spend: vec![
                    "9c3590a30d7b5d27f264a295aec6ed15c83618c152c89b28b81a460fcbb66514:1"
                        .to_string(),
                ],
                pool_utxo_receive: vec![
                    "0cec5e1ac7688744dc7af59e8e3cd7be794b0f6dfec9357181759dc4c9c9e541:2"
                        .to_string(),
                ],
                input_coins: vec![InputCoin {
                    from: "bc1pu3pv54uxfps00a8ydle67fd3rktz090l07lyg7wadurq4h0lpjhqnet990"
                        .to_string(),
                    coin: CoinBalance { id: CoinId::btc(), value: 25_523 },
                }],
                output_coins: vec![OutputCoin {
                    to: "bc1plvgrpk6mxwyppvqa5j275ujatn8qgs2dcm8m3r2w7sfkn395x6us9l5qdj"
                        .to_string(),
                    coin: CoinBalance {
                        id: CoinId::from_str("840106:129").unwrap(),
                        value: 672_563,
                    },
                }],
            },
        ],
    }
}

#[test]
fn test_ree_instruction_json() {
    let instruction_set_1 = IntentionSet {
        initiator_address: "bc1q8anrrgczju8zn02ww06slsfh9grm07de7r9e3k".to_string(),
        tx_fee_in_sats: 360,
        intentions: vec![Intention {
            exchange_id: "RICH_SWAP".to_string(),
            action: "add_liquidity".to_string(),
            action_params: String::new(),
            pool_address: "bc1pxtmh763568jd8pz9m8wekt2yrqyntqv2wk465mgpzlr9f2aq2vqs52l0hq"
                .to_string(),
            nonce: 1,
            pool_utxo_spend: vec![],
            pool_utxo_receive: vec![
                "4b004c33c5b7bce9a8f5a3a0dab48dd47e33486a8cea5f63ef558849f5604b88:1".to_string(),
            ],
            input_coins: vec![
                InputCoin {
                    from: "bc1q8anrrgczju8zn02ww06slsfh9grm07de7r9e3k".to_string(),
                    coin: CoinBalance { id: CoinId::btc(), value: 23_000 },
                },
                InputCoin {
                    from: "bc1q8anrrgczju8zn02ww06slsfh9grm07de7r9e3k".to_string(),
                    coin: CoinBalance {
                        id: CoinId::from_str("868703:142").unwrap(),
                        value: 959_000_000,
                    },
                },
            ],
            output_coins: vec![],
        }],
    };
    println!("Add liquidity sample instruction: {}\n", instruction_set_1.to_json());

    let instruction_set_2 = IntentionSet {
        initiator_address: "bc1qvwvcttn5dtxleu73uuyh8w759gukjr22l7z503".to_string(),
        tx_fee_in_sats: 330,
        intentions: vec![Intention {
            exchange_id: "RICH_SWAP".to_string(),
            action: "withdraw_liquidity".to_string(),
            action_params: String::new(),
            pool_address: "bc1pu3pv54uxfps00a8ydle67fd3rktz090l07lyg7wadurq4h0lpjhqnet990"
                .to_string(),
            nonce: 11,
            pool_utxo_spend: vec![
                "71c9aa9a015e0fcd5cbd6354fbd61c290f9c0a77cecb920df1f0917e7ddc75b7:0".to_string(),
            ],
            pool_utxo_receive: vec![],
            input_coins: vec![],
            output_coins: vec![
                OutputCoin {
                    to: "bc1qvwvcttn5dtxleu73uuyh8w759gukjr22l7z503".to_string(),
                    coin: CoinBalance { id: CoinId::btc(), value: 10_124 },
                },
                OutputCoin {
                    to: "bc1qvwvcttn5dtxleu73uuyh8w759gukjr22l7z503".to_string(),
                    coin: CoinBalance {
                        id: CoinId::from_str("840106:129").unwrap(),
                        value: 7_072_563,
                    },
                },
            ],
        }],
    };
    println!("Withdraw liquidity sample instruction: {}\n", instruction_set_2.to_json());

    let instruction_set_3 = IntentionSet {
        initiator_address: "bc1plvgrpk6mxwyppvqa5j275ujatn8qgs2dcm8m3r2w7sfkn395x6us9l5qdj"
            .to_string(),
        tx_fee_in_sats: 340,
        intentions: vec![Intention {
            exchange_id: "RICH_SWAP".to_string(),
            action: "swap".to_string(),
            action_params: String::new(),
            pool_address: "bc1ptnxf8aal3apeg8r4zysr6k2mhadg833se2dm4nssl7drjlqdh2jqa4tk3p"
                .to_string(),
            nonce: 5,
            pool_utxo_spend: vec![
                "17616a9d2258c41bea2175e64ecc2e5fc45ae18be5c9003e058cb0bb85301fd8:0".to_string(),
            ],
            pool_utxo_receive: vec![
                "0cec5e1ac7688744dc7af59e8e3cd7be794b0f6dfec9357181759dc4c9c9e541:0".to_string(),
            ],
            input_coins: vec![InputCoin {
                from: "bc1plvgrpk6mxwyppvqa5j275ujatn8qgs2dcm8m3r2w7sfkn395x6us9l5qdj"
                    .to_string(),
                coin: CoinBalance {
                    id: CoinId::from_str("840000:846").unwrap(),
                    value: 10_000_000,
                },
            }],
            output_coins: vec![OutputCoin {
                to: "bc1plvgrpk6mxwyppvqa5j275ujatn8qgs2dcm8m3r2w7sfkn395x6us9l5qdj".to_string(),
                coin: CoinBalance { id: CoinId::btc(), value: 25_523 },
            }],
        }],
    };
    println!("Runes swap btc sample instruction: {}\n", instruction_set_3.to_json());

    let instruction_set_4 = swap_chain_set();
    println!("Runes swap runes sample instruction: {}\n", instruction_set_4.to_json());
}

#[test]
fn test_json_exact_form() {
    let set = IntentionSet {
        initiator_address: "addr1".to_string(),
        tx_fee_in_sats: 360,
        intentions: vec![Intention {
            exchange_id: "RICH_SWAP".to_string(),
            action: "swap".to_string(),
            action_params: String::new(),
            pool_address: "pool1".to_string(),
            nonce: 7,
            pool_utxo_spend: vec!["a:1".to_string(), "b:2".to_string()],
            pool_utxo_receive: vec![],
            input_coins: vec![InputCoin {
                from: "addr1".to_string(),
                coin: CoinBalance { id: CoinId::from_str("840000:846").unwrap(), value: 330 },
            }],
            output_coins: vec![],
        }],
    };
    let expected = "{\"initiator_address\":\"addr1\",\"tx_fee_in_sats\":360,\"intentions\":[{\"exchange_id\":\"RICH_SWAP\",\"action\":\"swap\",\"action_params\":\"\",\"pool_address\":\"pool1\",\"nonce\":7,\"pool_utxo_spend\":[\"a:1\",\"b:2\"],\"pool_utxo_receive\":[],\"input_coins\":[{\"from\":\"addr1\",\"coin\":{\"id\":\"840000:846\",\"value\":330}}],\"output_coins\":[]}]}";
    assert_eq!(set.to_json(), expected);
}

/// A swap-chain bundle survives a serialize/deserialize round trip through a
/// real JSON parser with the order of `intentions` and of each intention's
/// UTXO lists intact.
#[test]
fn test_swap_chain_round_trip_preserves_order() {
    let set = swap_chain_set();
    let text = set.to_json();
    let v: serde_json::Value = serde_json::from_str(&text).expect("well-formed JSON");

    assert_eq!(
        v["initiator_address"].as_str().unwrap(),
        "bc1plvgrpk6mxwyppvqa5j275ujatn8qgs2dcm8m3r2w7sfkn395x6us9l5qdj"
    );
    assert_eq!(v["tx_fee_in_sats"].as_u64().unwrap(), 410);
    let intentions = v["intentions"].as_array().unwrap();
    assert_eq!(intentions.len(), 2);

    assert_eq!(
        intentions[0]["pool_address"].as_str().unwrap(),
        "bc1ptnxf8aal3apeg8r4zysr6k2mhadg833se2dm4nssl7drjlqdh2jqa4tk3p"
    );
    assert_eq!(intentions[0]["nonce"].as_u64().unwrap(), 5);
    assert_eq!(
        intentions[0]["pool_utxo_spend"][0].as_str().unwrap(),
        "17616a9d2258c41bea2175e64ecc2e5fc45ae18be5c9003e058cb0bb85301fd8:0"
    );
    assert_eq!(
        intentions[0]["pool_utxo_receive"][0].as_str().unwrap(),
        "0cec5e1ac7688744dc7af59e8e3cd7be794b0f6dfec9357181759dc4c9c9e541:0"
    );
    assert_eq!(intentions[0]["input_coins"][0]["coin"]["id"].as_str().unwrap(), "840000:846");
    assert_eq!(intentions[0]["input_coins"][0]["coin"]["value"].as_u64().unwrap(), 10_000_000);

    assert_eq!(
        intentions[1]["pool_address"].as_str().unwrap(),
        "bc1pu3pv54uxfps00a8ydle67fd3rktz090l07lyg7wadurq4h0lpjhqnet990"
    );
    assert_eq!(intentions[1]["nonce"].as_u64().unwrap(), 9);
    assert_eq!(
        intentions[1]["pool_utxo_spend"][0].as_str().unwrap(),
        "9c3590a30d7b5d27f264a295aec6ed15c83618c152c89b28b81a460fcbb66514:1"
    );
    assert_eq!(
        intentions[1]["pool_utxo_receive"][0].as_str().unwrap(),
        "0cec5e1ac7688744dc7af59e8e3cd7be794b0f6dfec9357181759dc4c9c9e541:2"
    );
    assert_eq!(intentions[1]["output_coins"][0]["coin"]["id"].as_str().unwrap(), "840106:129");
    assert_eq!(intentions[1]["output_coins"][0]["coin"]["value"].as_u64().unwrap(), 672_563);
}
