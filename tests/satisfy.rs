use script_descriptor::{satisfy_cost, satisfy_csv, Error, Hash160, ParseTree, PublicKey, Sha256dHash, E, F, T, V, W};

fn pubkeys(n: usize) -> Vec<PublicKey> {
    let secp = secp256k1::Secp256k1::new();
    (1..n + 1)
        .map(|i| {
            let mut sk = [0u8; 32];
            sk[0] = i as u8;
            let sk = secp256k1::SecretKey::from_slice(&sk).unwrap();
            PublicKey::from_slice(&secp256k1::PublicKey::from_secret_key(&secp, &sk).serialize()).unwrap()
        })
        .collect()
}

fn sig(i: u8, len: usize) -> Vec<u8> {
    vec![i; len]
}

fn no_pkh() -> Vec<(Hash160, PublicKey)> {
    vec![]
}

fn no_hash() -> Vec<(Sha256dHash, [u8; 32])> {
    vec![]
}

fn switch_tree(keys: &[PublicKey]) -> ParseTree {
    ParseTree(Box::new(T::CastF(Box::new(F::SwitchOrV(
        Box::new(V::CheckSig(keys[0])),
        Box::new(V::And(Box::new(V::CheckSig(keys[1])), Box::new(V::CheckSig(keys[2])))),
    )))))
}

#[test]
fn switch_or_takes_the_left_branch() {
    let keys = pubkeys(3);
    let km = vec![(keys[0], sig(1, 71))];
    let wit = switch_tree(&keys).satisfy(&km, &no_pkh(), &no_hash(), 0).unwrap();
    assert_eq!(wit, vec![sig(1, 71), vec![1]]);
}

#[test]
fn switch_or_takes_the_right_branch() {
    let keys = pubkeys(3);
    let km = vec![(keys[1], sig(2, 72)), (keys[2], sig(3, 70))];
    let wit = switch_tree(&keys).satisfy(&km, &no_pkh(), &no_hash(), 0).unwrap();
    assert_eq!(wit, vec![sig(3, 70), sig(2, 72), vec![]]);
}

#[test]
fn switch_or_missing_everything() {
    let keys = pubkeys(3);
    let r = switch_tree(&keys).satisfy(&vec![], &no_pkh(), &no_hash(), 0);
    assert_eq!(r, Err(Error::MissingSig(keys[0])));
}

#[test]
fn csv_locktime() {
    assert_eq!(satisfy_csv(10, 9), Err(Error::LocktimeNotMet(10)));
    assert_eq!(satisfy_csv(10, 10), Ok(vec![]));
    let tree = ParseTree(Box::new(T::CastF(Box::new(F::Csv(100)))));
    assert_eq!(tree.satisfy(&vec![], &no_pkh(), &no_hash(), 99), Err(Error::LocktimeNotMet(100)));
    assert_eq!(tree.satisfy(&vec![], &no_pkh(), &no_hash(), 150), Ok(vec![]));
}

#[test]
fn cost_counts_length_bytes() {
    assert_eq!(satisfy_cost(&[]), 0);
    assert_eq!(satisfy_cost(&[vec![], vec![1, 2, 3]]), 5);
}

#[test]
fn multisig_drops_the_longest() {
    let keys = pubkeys(3);
    let km = vec![(keys[0], sig(1, 72)), (keys[1], sig(2, 70)), (keys[2], sig(3, 71))];
    let tree = ParseTree(Box::new(T::CastE(Box::new(E::CheckMultiSig(2, keys.clone())))));
    let wit = tree.satisfy(&km, &no_pkh(), &no_hash(), 0).unwrap();
    assert_eq!(wit, vec![sig(2, 70), sig(3, 71), vec![]]);
    let short = vec![(keys[0], sig(1, 72))];
    assert_eq!(tree.satisfy(&short, &no_pkh(), &no_hash(), 0), Err(Error::CouldNotSatisfy));
}

#[test]
fn hash_preimage() {
    let h = Sha256dHash { bytes: [7; 32] };
    let tree = ParseTree(Box::new(T::HashEqual(h)));
    assert_eq!(tree.satisfy(&vec![], &no_pkh(), &no_hash(), 0), Err(Error::MissingHash(h)));
    let hm = vec![(h, [9u8; 32])];
    assert_eq!(tree.satisfy(&vec![], &no_pkh(), &hm, 0), Ok(vec![vec![9u8; 32]]));
}

#[test]
fn pubkey_hash() {
    let keys = pubkeys(1);
    let h = Hash160 { bytes: [4; 20] };
    let tree = ParseTree(Box::new(T::CastE(Box::new(E::CheckSigHash(h)))));
    let km = vec![(keys[0], sig(1, 71))];
    assert_eq!(tree.satisfy(&km, &no_pkh(), &no_hash(), 0), Err(Error::MissingPubkey(h)));
    let pm = vec![(h, keys[0])];
    assert_eq!(tree.satisfy(&km, &pm, &no_hash(), 0), Ok(vec![sig(1, 71), keys[0].bytes.to_vec()]));
    assert_eq!(tree.satisfy(&vec![], &pm, &no_hash(), 0), Err(Error::MissingSig(keys[0])));
}

#[test]
fn parallel_or_picks_the_cheaper_side() {
    let keys = pubkeys(2);
    let tree = ParseTree(Box::new(T::CastE(Box::new(E::ParallelOr(
        Box::new(E::CheckSig(keys[0])),
        Box::new(W::CheckSig(keys[1])),
    )))));
    let km = vec![(keys[0], sig(1, 72)), (keys[1], sig(2, 70))];
    assert_eq!(tree.satisfy(&km, &no_pkh(), &no_hash(), 0), Ok(vec![vec![], sig(2, 70)]));
    let km = vec![(keys[0], sig(1, 72))];
    assert_eq!(tree.satisfy(&km, &no_pkh(), &no_hash(), 0), Ok(vec![sig(1, 72), vec![]]));
}

#[test]
fn threshold_picks_cheapest_in_child_order() {
    let keys = pubkeys(3);
    let tree = ParseTree(Box::new(T::CastE(Box::new(E::Threshold(
        2,
        Box::new(E::CheckSig(keys[0])),
        vec![W::CheckSig(keys[1]), W::CheckSig(keys[2])],
    )))));
    let km = vec![(keys[0], sig(1, 73)), (keys[1], sig(2, 71)), (keys[2], sig(3, 71))];
    let wit = tree.satisfy(&km, &no_pkh(), &no_hash(), 0).unwrap();
    assert_eq!(wit, vec![vec![], sig(2, 71), sig(3, 71)]);
    let km = vec![(keys[0], sig(1, 73))];
    assert_eq!(tree.satisfy(&km, &no_pkh(), &no_hash(), 0), Err(Error::CouldNotSatisfy));
}

#[test]
fn required_keys_lists_checked_keys() {
    let keys = pubkeys(5);
    let tree = ParseTree(Box::new(T::CascadeOr(
        Box::new(E::CheckMultiSig(2, keys[0..2].to_owned())),
        Box::new(T::And(
            Box::new(V::CheckMultiSig(2, keys[3..5].to_owned())),
            Box::new(T::CastF(Box::new(F::Csv(10000)))),
        )),
    )));
    assert_eq!(tree.required_keys(), vec![keys[0], keys[1], keys[3], keys[4]]);
    let h = ParseTree(Box::new(T::CastE(Box::new(E::CheckSigHash(Hash160 { bytes: [1; 20] })))));
    assert_eq!(h.required_keys(), vec![]);
}

#[test]
fn bad_key_rejected() {
    assert!(matches!(PublicKey::from_slice(&[2u8; 32]), Err(Error::BadPubkey(_))));
    let mut b = vec![0x02];
    b.extend([0xffu8; 32]);
    assert_eq!(PublicKey::from_slice(&b), Err(Error::BadPubkey(b.clone())));
}

#[test]
fn later_age_keeps_satisfaction() {
    let keys = pubkeys(2);
    // a 1-of-2 threshold of a key and a locktime, and an AND with a locktime
    let tree = ParseTree(Box::new(T::And(
        Box::new(V::Threshold(1, Box::new(E::CheckSig(keys[0])), vec![W::Csv(50)])),
        Box::new(T::CastF(Box::new(F::Csv(10)))),
    )));
    let km = vec![(keys[0], sig(1, 71))];
    assert_eq!(tree.satisfy(&km, &no_pkh(), &no_hash(), 5), Err(Error::LocktimeNotMet(10)));
    let at_10 = tree.satisfy(&km, &no_pkh(), &no_hash(), 10).unwrap();
    assert_eq!(at_10, vec![sig(1, 71)]);
    // at 50 the locktime child is cheaper than the signature and is chosen
    let at_60 = tree.satisfy(&km, &no_pkh(), &no_hash(), 60).unwrap();
    assert_eq!(at_60, vec![vec![], vec![1]]);
    assert!(tree.satisfy(&vec![], &no_pkh(), &no_hash(), 60).is_ok());
    assert_eq!(tree.satisfy(&vec![], &no_pkh(), &no_hash(), 20), Err(Error::CouldNotSatisfy));
}

#[test]
fn unrelated_signatures_do_not_matter() {
    let keys = pubkeys(4);
    let tree = ParseTree(Box::new(T::CastE(Box::new(E::ParallelOr(
        Box::new(E::CheckSig(keys[0])),
        Box::new(W::CheckSig(keys[1])),
    )))));
    let required = tree.required_keys();
    assert_eq!(required, vec![keys[0], keys[1]]);
    let km1 = vec![(keys[0], sig(1, 71))];
    let km2 = vec![(keys[2], sig(3, 60)), (keys[0], sig(1, 71)), (keys[3], sig(4, 10))];
    assert_eq!(
        tree.satisfy(&km1, &no_pkh(), &no_hash(), 0),
        tree.satisfy(&km2, &no_pkh(), &no_hash(), 0)
    );
}

#[test]
fn errors_name_a_missing_ingredient() {
    let keys = pubkeys(2);
    let h = Sha256dHash { bytes: [5; 32] };
    let tree = ParseTree(Box::new(T::And(
        Box::new(V::CheckSig(keys[0])),
        Box::new(T::HashEqual(h)),
    )));
    let km = vec![(keys[0], sig(1, 71))];
    assert_eq!(tree.satisfy(&km, &no_pkh(), &no_hash(), 0), Err(Error::MissingHash(h)));
    assert_eq!(tree.satisfy(&vec![], &no_pkh(), &vec![(h, [0; 32])], 0), Err(Error::MissingSig(keys[0])));
    assert_eq!(
        tree.satisfy(&km, &no_pkh(), &vec![(h, [2; 32])], 0),
        Ok(vec![vec![2; 32], sig(1, 71)])
    );
}

#[test]
fn error_descriptions() {
    assert_eq!(Error::CouldNotSatisfy.description(), "could not satisfy");
    assert_eq!(Error::UnexpectedStart.description(), "unexpected start of script");
    assert_eq!(Error::LocktimeNotMet(3).description(), "locktime not met");
}

#[test]
fn dissatisfaction_shapes() {
    let keys = pubkeys(2);
    assert_eq!(E::CheckSig(keys[0]).dissatisfy(&no_pkh()), Ok(vec![vec![]]));
    assert_eq!(E::CheckMultiSig(2, keys.clone()).dissatisfy(&no_pkh()), Ok(vec![vec![], vec![], vec![]]));
    let h = Hash160 { bytes: [8; 20] };
    assert_eq!(E::CheckSigHash(h).dissatisfy(&no_pkh()), Err(Error::MissingPubkey(h)));
    assert_eq!(
        E::CheckSigHash(h).dissatisfy(&vec![(h, keys[1])]),
        Ok(vec![vec![], keys[1].bytes.to_vec()])
    );
    assert_eq!(W::Csv(5).dissatisfy(&no_pkh()), Ok(vec![]));
    assert_eq!(W::CheckSig(keys[0]).dissatisfy(&no_pkh()), Ok(vec![vec![]]));
}

#[test]
fn first_entry_for_a_key_is_used() {
    let keys = pubkeys(1);
    let tree = ParseTree(Box::new(T::CastE(Box::new(E::CheckSig(keys[0])))));
    let km = vec![(keys[0], sig(1, 70)), (keys[0], sig(2, 71))];
    assert_eq!(tree.satisfy(&km, &no_pkh(), &no_hash(), 0), Ok(vec![sig(1, 70)]));
}

#[test]
fn required_keys_keeps_duplicates() {
    let keys = pubkeys(1);
    let tree = ParseTree(Box::new(T::And(
        Box::new(V::CheckSig(keys[0])),
        Box::new(T::CastE(Box::new(E::CheckSig(keys[0])))),
    )));
    assert_eq!(tree.required_keys(), vec![keys[0], keys[0]]);
}
