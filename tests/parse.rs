use bitcoin::hashes::{hash160, sha256d};
use bitcoin::hashes::Hash as _;
use script_descriptor::{lex, Error, Hash160, ParseTree, PublicKey, ScriptError, Sha256dHash, Token, E, F, T, V, W};

fn pubkeys(n: usize) -> Vec<PublicKey> {
    let mut ret = Vec::with_capacity(n);
    let secp = secp256k1::Secp256k1::new();
    let mut sk = [0; 32];
    for i in 1..n + 1 {
        sk[0] = i as u8;
        sk[1] = (i >> 8) as u8;
        sk[2] = (i >> 16) as u8;

        let pk = secp256k1::PublicKey::from_secret_key(
            &secp,
            &secp256k1::SecretKey::from_slice(&sk[..]).expect("secret key"),
        );
        ret.push(PublicKey::from_slice(&pk.serialize()).expect("valid key"));
    }
    ret
}

fn hex(s: &str) -> Vec<u8> {
    (0..s.len()).step_by(2).map(|i| u8::from_str_radix(&s[i..i + 2], 16).unwrap()).collect()
}

/// The bytes of a script written in the `Script(OP_... )` notation.
fn script_of(s: &str) -> Vec<u8> {
    let inner = s.strip_prefix("Script(").unwrap().strip_suffix(")").unwrap();
    let mut out = vec![];
    let mut words = inner.split_whitespace();
    while let Some(w) = words.next() {
        if let Some(n) = w.strip_prefix("OP_PUSHBYTES_") {
            let n: u8 = n.parse().unwrap();
            let data = hex(words.next().unwrap());
            assert_eq!(data.len(), n as usize);
            out.push(n);
            out.extend(data);
        } else if let Some(n) = w.strip_prefix("OP_PUSHNUM_") {
            out.push(0x50 + n.parse::<u8>().unwrap());
        } else {
            out.push(match w {
                "OP_0" => 0x00,
                "OP_IF" => 0x63,
                "OP_NOTIF" => 0x64,
                "OP_ELSE" => 0x67,
                "OP_ENDIF" => 0x68,
                "OP_VERIFY" => 0x69,
                "OP_IFDUP" => 0x73,
                "OP_DUP" => 0x76,
                "OP_SWAP" => 0x7c,
                "OP_SIZE" => 0x82,
                "OP_EQUAL" => 0x87,
                "OP_EQUALVERIFY" => 0x88,
                "OP_BOOLOR" => 0x9b,
                "OP_SHA256" => 0xa8,
                "OP_HASH160" => 0xa9,
                "OP_CHECKSIG" => 0xac,
                "OP_CHECKSIGVERIFY" => 0xad,
                "OP_CHECKMULTISIG" => 0xae,
                "OP_CHECKMULTISIGVERIFY" => 0xaf,
                "OP_NOP3" => 0xb2,
                other => panic!("unknown opcode {}", other),
            });
        }
    }
    out
}

fn roundtrip(tree: &ParseTree, s: &str) {
    let ser = tree.serialize();
    assert_eq!(ser, script_of(s));
    let deser = ParseTree::parse(&ser).expect("deserialize result of serialize");
    assert_eq!(tree, &deser);
}

fn sha256d_of_empty() -> Sha256dHash {
    Sha256dHash { bytes: sha256d::Hash::hash(&[]).to_byte_array() }
}

#[test]
fn serialize() {
    let keys = pubkeys(5);

    roundtrip(
        &ParseTree(Box::new(T::CastE(Box::new(E::CheckSig(keys[0].clone()))))),
        "Script(OP_PUSHBYTES_33 028c28a97bf8298bc0d23d8c749452a32e694b65e30a9472a3954ab30fe5324caa OP_CHECKSIG)"
    );
    roundtrip(
        &ParseTree(Box::new(T::CastE(Box::new(E::CheckMultiSig(3, keys.clone()))))),
        "Script(OP_PUSHNUM_3 OP_PUSHBYTES_33 028c28a97bf8298bc0d23d8c749452a32e694b65e30a9472a3954ab30fe5324caa OP_PUSHBYTES_33 03ab1ac1872a38a2f196bed5a6047f0da2c8130fe8de49fc4d5dfb201f7611d8e2 OP_PUSHBYTES_33 039729247032c0dfcf45b4841fcd72f6e9a2422631fc3466cf863e87154754dd40 OP_PUSHBYTES_33 032564fe9b5beef82d3703a607253f31ef8ea1b365772df434226aee642651b3fa OP_PUSHBYTES_33 0289637f97580a796e050791ad5a2f27af1803645d95df021a3c2d82eb8c2ca7ff OP_PUSHNUM_5 OP_CHECKMULTISIG)"
    );

    let hash = Hash160 { bytes: hash160::Hash::hash(&keys[0].bytes).to_byte_array() };
    roundtrip(
        &ParseTree(Box::new(T::CastE(Box::new(E::CheckSigHash(hash))))),
        "Script(OP_DUP OP_HASH160 OP_PUSHBYTES_20 60afcdec519698a263417ddfe7cea936737a0ee7 OP_EQUALVERIFY OP_CHECKSIG)"
    );

    // Liquid policy
    roundtrip(
        &ParseTree(Box::new(T::CascadeOr(
            Box::new(E::CheckMultiSig(2, keys[0..2].to_owned())),
            Box::new(T::And(
                 Box::new(V::CheckMultiSig(2, keys[3..5].to_owned())),
                 Box::new(T::CastF(Box::new(F::Csv(10000)))),
             )),
         ))),
         "Script(OP_PUSHNUM_2 OP_PUSHBYTES_33 028c28a97bf8298bc0d23d8c749452a32e694b65e30a9472a3954ab30fe5324caa \
                              OP_PUSHBYTES_33 03ab1ac1872a38a2f196bed5a6047f0da2c8130fe8de49fc4d5dfb201f7611d8e2 \
                              OP_PUSHNUM_2 OP_CHECKMULTISIG \
                 OP_IFDUP OP_NOTIF \
                     OP_PUSHNUM_2 OP_PUSHBYTES_33 032564fe9b5beef82d3703a607253f31ef8ea1b365772df434226aee642651b3fa \
                                  OP_PUSHBYTES_33 0289637f97580a796e050791ad5a2f27af1803645d95df021a3c2d82eb8c2ca7ff \
                                  OP_PUSHNUM_2 OP_CHECKMULTISIGVERIFY \
                     OP_PUSHBYTES_2 1027 OP_NOP3 \
                 OP_ENDIF)"
     );

    roundtrip(
        &ParseTree(Box::new(T::CastF(Box::new(F::Csv(921))))),
        "Script(OP_PUSHBYTES_2 9903 OP_NOP3)"
    );

    roundtrip(
        &ParseTree(Box::new(T::HashEqual(sha256d_of_empty()))),
        "Script(OP_SIZE OP_PUSHBYTES_1 20 OP_EQUALVERIFY OP_SHA256 OP_PUSHBYTES_32 5df6e0e2761359d30a8275058e299fcc0381534545f55cf43e41983f5d4c9456 OP_EQUAL)"
    );

    roundtrip(
        &ParseTree(Box::new(T::CastE(Box::new(E::CheckMultiSig(3, keys[0..5].to_owned()))))),
        "Script(OP_PUSHNUM_3 \
                OP_PUSHBYTES_33 028c28a97bf8298bc0d23d8c749452a32e694b65e30a9472a3954ab30fe5324caa \
                OP_PUSHBYTES_33 03ab1ac1872a38a2f196bed5a6047f0da2c8130fe8de49fc4d5dfb201f7611d8e2 \
                OP_PUSHBYTES_33 039729247032c0dfcf45b4841fcd72f6e9a2422631fc3466cf863e87154754dd40 \
                OP_PUSHBYTES_33 032564fe9b5beef82d3703a607253f31ef8ea1b365772df434226aee642651b3fa \
                OP_PUSHBYTES_33 0289637f97580a796e050791ad5a2f27af1803645d95df021a3c2d82eb8c2ca7ff \
                OP_PUSHNUM_5 OP_CHECKMULTISIG)"
    );

    roundtrip(
        &ParseTree(Box::new(T::HashEqual(sha256d_of_empty()))),
        "Script(OP_SIZE OP_PUSHBYTES_1 20 OP_EQUALVERIFY OP_SHA256 OP_PUSHBYTES_32 5df6e0e2761359d30a8275058e299fcc0381534545f55cf43e41983f5d4c9456 OP_EQUAL)"
    );

    roundtrip(
        &ParseTree(Box::new(T::CastF(Box::new(F::SwitchOrV(
            Box::new(V::CheckSig(keys[0].clone())),
            Box::new(V::And(
                Box::new(V::CheckSig(keys[1].clone())),
                Box::new(V::CheckSig(keys[2].clone())),
            ))))),
        )),
        "Script(OP_SIZE OP_EQUALVERIFY OP_IF \
            OP_PUSHBYTES_33 028c28a97bf8298bc0d23d8c749452a32e694b65e30a9472a3954ab30fe5324caa OP_CHECKSIGVERIFY \
            OP_ELSE \
            OP_PUSHBYTES_33 03ab1ac1872a38a2f196bed5a6047f0da2c8130fe8de49fc4d5dfb201f7611d8e2 OP_CHECKSIGVERIFY \
            OP_PUSHBYTES_33 039729247032c0dfcf45b4841fcd72f6e9a2422631fc3466cf863e87154754dd40 OP_CHECKSIGVERIFY \
            OP_ENDIF OP_PUSHNUM_1)"
    );

    // fuzzer
    roundtrip(
        &ParseTree(Box::new(T::CastF(Box::new(F::SwitchOr(
            Box::new(F::Csv(9)),
            Box::new(F::Csv(7)),
        ))))),
        "Script(OP_SIZE OP_EQUALVERIFY OP_IF OP_PUSHNUM_9 OP_NOP3 OP_ELSE OP_PUSHNUM_7 OP_NOP3 OP_ENDIF)"
    );

    roundtrip(
        &ParseTree(Box::new(T::And(
            Box::new(V::SwitchOrT(
                Box::new(T::CastF(Box::new(F::Csv(9)))),
                Box::new(T::CastF(Box::new(F::Csv(7)))),
            )),
            Box::new(T::CastF(Box::new(F::Csv(7))))
        ))),
        "Script(OP_SIZE OP_EQUALVERIFY OP_IF OP_PUSHNUM_9 OP_NOP3 OP_ELSE OP_PUSHNUM_7 OP_NOP3 OP_ENDIF OP_VERIFY OP_PUSHNUM_7 OP_NOP3)"
    );

    roundtrip(
        &ParseTree(Box::new(T::CastE(Box::new(E::ParallelOr(
            Box::new(E::CheckMultiSig(0, vec![])),
            Box::new(W::CheckSig(keys[0].clone())),
        ))))),
        "Script(OP_0 OP_0 OP_CHECKMULTISIG OP_SWAP OP_PUSHBYTES_33 028c28a97bf8298bc0d23d8c749452a32e694b65e30a9472a3954ab30fe5324caa OP_CHECKSIG OP_BOOLOR)"
    );
}

#[test]
fn deserialize() {
    // Most of these came from fuzzing, hence the increasing lengths
    assert!(ParseTree::parse(&[]).is_err()); // empty script
    assert!(ParseTree::parse(&[0]).is_err()); // FALSE and nothing else
    assert!(ParseTree::parse(&[0x50]).is_err()); // TRUE and nothing else
    assert!(ParseTree::parse(&[0x69]).is_err()); // VERIFY and nothing else
    assert!(ParseTree::parse(&[0x10, 1]).is_err()); // incomplete push and nothing else
    assert!(ParseTree::parse(&[0x03, 0x99, 0x03, 0x00, 0xb2]).is_err()); // non-minimal #
    assert!(ParseTree::parse(&[0x85, 0x59, 0xb2]).is_err()); // leading bytes
    assert!(ParseTree::parse(&[0x4c, 0x01, 0x69, 0xb2]).is_err()); // nonminimal push
    assert!(ParseTree::parse(&[0x00, 0x00, 0xaf, 0x01, 0x01, 0xb2]).is_err()); // nonminimal number

    assert!(ParseTree::parse(&[0x00, 0x00, 0xaf, 0x00, 0x00, 0xae, 0x85]).is_err()); // OR not BOOLOR
    assert!(ParseTree::parse(&[0x00, 0x00, 0xaf, 0x00, 0x00, 0xae, 0x9b]).is_err()); // parallel OR without wrapping
}

#[test]
fn negative_parse_errors_name_the_fault() {
    assert_eq!(ParseTree::parse(&[]), Err(Error::UnexpectedStart));
    assert!(matches!(ParseTree::parse(&[0]), Err(Error::Unexpected(_))));
    assert_eq!(ParseTree::parse(&[0x69]), Err(Error::UnexpectedStart));
    assert_eq!(ParseTree::parse(&[0x50]), Err(Error::InvalidOpcode(0x50)));
    assert_eq!(ParseTree::parse(&[0x10, 1]), Err(Error::Script(ScriptError::EarlyEndOfScript)));
    assert_eq!(ParseTree::parse(&[0x03, 0x99, 0x03, 0x00, 0xb2]), Err(Error::InvalidPush(vec![0x99, 0x03, 0x00])));
    assert_eq!(ParseTree::parse(&[0x4c, 0x01, 0x69, 0xb2]), Err(Error::InvalidPush(vec![0x69])));
    assert_eq!(ParseTree::parse(&[0x00, 0x00, 0xaf, 0x01, 0x01, 0xb2]), Err(Error::InvalidPush(vec![0x01])));
    assert!(matches!(
        ParseTree::parse(&[0x00, 0x00, 0xaf, 0x00, 0x00, 0xae, 0x9b]),
        Err(Error::Unexpected(_))
    ));
    assert_eq!(ParseTree::parse(&[0x05, 1, 2, 3, 4, 5, 0xb2]), Err(Error::Script(ScriptError::NumericOverflow)));
}

#[test]
fn lex_minimal_numbers() {
    assert_eq!(lex(&[0x00, 0x51, 0x60]), Ok(vec![Token::Number(0), Token::Number(1), Token::Number(16)]));
    assert_eq!(lex(&[0x01, 0x11]), Ok(vec![Token::Number(17)]));
    assert_eq!(lex(&[0x02, 0x80, 0x00]), Ok(vec![Token::Number(128)]));
    assert_eq!(lex(&[0x02, 0x10, 0x27]), Ok(vec![Token::Number(10000)]));
    // a sign bit set: negative
    assert_eq!(lex(&[0x01, 0x81]), Err(Error::InvalidPush(vec![0x81])));
    // trailing zero byte that is not needed
    assert_eq!(lex(&[0x02, 0x11, 0x00]), Err(Error::InvalidPush(vec![0x11, 0x00])));
    // small numbers must use their opcode
    assert_eq!(lex(&[0x01, 0x05]), Err(Error::InvalidPush(vec![0x05])));
    assert_eq!(lex(&[0xb1]), Err(Error::InvalidOpcode(0xb1)));
}

#[test]
fn lex_bad_pubkey() {
    let mut script = vec![33u8, 0x02];
    script.extend([0xff; 32]);
    assert_eq!(lex(&script), Err(Error::BadPubkey(script[1..].to_vec())));
}

#[test]
fn threshold_round_trip_keeps_order() {
    let keys = pubkeys(3);
    let tree = ParseTree(Box::new(T::CastE(Box::new(E::Threshold(
        2,
        Box::new(E::CheckSig(keys[0])),
        vec![W::CheckSig(keys[1]), W::CheckSig(keys[2])],
    )))));
    let ser = tree.serialize();
    assert_eq!(ParseTree::parse(&ser), Ok(tree));
}

#[test]
fn verify_threshold_round_trip() {
    let keys = pubkeys(2);
    let tree = ParseTree(Box::new(T::And(
        Box::new(V::Threshold(1, Box::new(E::CheckSig(keys[0])), vec![W::CheckSig(keys[1])])),
        Box::new(T::CastF(Box::new(F::Csv(20)))),
    )));
    let ser = tree.serialize();
    assert_eq!(ParseTree::parse(&ser), Ok(tree));
}

#[test]
fn parse_then_serialize_gives_the_script() {
    let keys = pubkeys(2);
    let mut script = vec![0x52, 33];
    script.extend(keys[0].bytes);
    script.push(33);
    script.extend(keys[1].bytes);
    script.extend([0x52, 0xae]);
    let tree = ParseTree::parse(&script).unwrap();
    assert_eq!(tree.serialize(), script);
}

#[test]
fn token_serialize() {
    let mut out = vec![];
    Token::Number(921).serialize(&mut out);
    Token::CheckSequenceVerify.serialize(&mut out);
    assert_eq!(out, vec![0x02, 0x99, 0x03, 0xb2]);
    assert_eq!(Token::Number(0).to_bytes(), vec![0x00]);
    assert_eq!(Token::Number(128).to_bytes(), vec![0x02, 0x80, 0x00]);
}
