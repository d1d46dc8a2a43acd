//! Satisfaction and dissatisfaction: the witness stacks that make a script
//! leave 1 (or 0) on the stack, built from the available signatures, public
//! keys, hash preimages and the age of the output.

use vstd::prelude::*;

use crate::ast::{ParseTree, E, F, T, V, W};
use crate::error::{Error, ErrorView};
use crate::keys::{bytes_eq, lemma_pubkey_eq, slice_to_vec, Hash160, PublicKey, Sha256dHash};

verus! {

/// A witness stack: byte strings in the order in which they are pushed.
pub type Witness = Seq<Seq<u8>>;

/// The outcome of a satisfaction or dissatisfaction.
pub type SatResult = Result<Seq<Seq<u8>>, ErrorView>;

/// The mathematical value of a witness.
pub open spec fn wv(w: Seq<Vec<u8>>) -> Witness {
    Seq::new(w.len(), |i: int| w[i]@)
}

/// The mathematical value of a satisfaction outcome.
pub open spec fn rv(r: Result<Vec<Vec<u8>>, Error>) -> SatResult {
    match r {
        Ok(w) => Ok(wv(w@)),
        Err(e) => Err(e@),
    }
}

/// The serialised size of a witness: one length byte and the bytes of each push.
pub open spec fn raw_cost(w: Witness) -> nat
    decreases w.len(),
{
    if w.len() == 0 {
        0
    } else {
        raw_cost(w.drop_last()) + 1 + w.last().len()
    }
}

/// The size of a witness, saturated at the largest machine word.
pub open spec fn cost(w: Witness) -> nat {
    if raw_cost(w) > usize::MAX {
        usize::MAX as nat
    } else {
        raw_cost(w)
    }
}

/// The signature that the key map holds for `pk` (its first entry for it).
pub open spec fn find_sig(km: Seq<(PublicKey, Vec<u8>)>, pk: PublicKey) -> Option<Seq<u8>>
    decreases km.len(),
{
    if km.len() == 0 {
        None
    } else if km[0].0 == pk {
        Some(km[0].1@)
    } else {
        find_sig(km.skip(1), pk)
    }
}

/// The public key that the pkh map holds for `h`.
pub open spec fn find_pk(pm: Seq<(Hash160, PublicKey)>, h: Hash160) -> Option<PublicKey>
    decreases pm.len(),
{
    if pm.len() == 0 {
        None
    } else if pm[0].0 == h {
        Some(pm[0].1)
    } else {
        find_pk(pm.skip(1), h)
    }
}

/// The preimage that the hash map holds for `h`.
pub open spec fn find_pre(hm: Seq<(Sha256dHash, [u8; 32])>, h: Sha256dHash) -> Option<Seq<u8>>
    decreases hm.len(),
{
    if hm.len() == 0 {
        None
    } else if hm[0].0 == h {
        Some(hm[0].1@)
    } else {
        find_pre(hm.skip(1), h)
    }
}

/// The available ingredients of a satisfaction: signatures by key, public
/// keys by hash, preimages by hash, and the age of the output.
pub struct Ingredients {
    pub km: Seq<(PublicKey, Vec<u8>)>,
    pub pm: Seq<(Hash160, PublicKey)>,
    pub hm: Seq<(Sha256dHash, [u8; 32])>,
    pub age: u32,
}

/// The ingredients held by the maps handed to the satisfier.
pub open spec fn ing(
    km: &Vec<(PublicKey, Vec<u8>)>,
    pm: &Vec<(Hash160, PublicKey)>,
    hm: &Vec<(Sha256dHash, [u8; 32])>,
    age: u32,
) -> Ingredients {
    Ingredients { km: km@, pm: pm@, hm: hm@, age }
}

/// `<pk> CHECKSIG`: the signature for the key.
pub open spec fn sat_checksig(pk: PublicKey, km: Seq<(PublicKey, Vec<u8>)>) -> SatResult {
    match find_sig(km, pk) {
        Some(s) => Ok(seq![s]),
        None => Err(ErrorView::MissingSig(pk)),
    }
}

/// `DUP HASH160 <h> EQUALVERIFY CHECKSIG`: the signature, then the key with that hash.
pub open spec fn sat_checksighash(h: Hash160, km: Seq<(PublicKey, Vec<u8>)>, pm: Seq<(Hash160, PublicKey)>) -> SatResult {
    match find_pk(pm, h) {
        Some(pk) => match find_sig(km, pk) {
            Some(s) => Ok(seq![s, pk.bytes@]),
            None => Err(ErrorView::MissingSig(pk)),
        },
        None => Err(ErrorView::MissingPubkey(h)),
    }
}

/// A hash check: the preimage.
pub open spec fn sat_hashequal(h: Sha256dHash, hm: Seq<(Sha256dHash, [u8; 32])>) -> SatResult {
    match find_pre(hm, h) {
        Some(p) => Ok(seq![p]),
        None => Err(ErrorView::MissingHash(h)),
    }
}

/// A relative locktime: nothing, once the age reaches it.
pub open spec fn sat_csv(n: u32, age: u32) -> SatResult {
    if age >= n {
        Ok(seq![])
    } else {
        Err(ErrorView::LocktimeNotMet(n))
    }
}

/// The index of the last of the longest pushes.
pub open spec fn last_max(a: Witness) -> int
    decreases a.len(),
{
    if a.len() <= 1 {
        0
    } else {
        let j = last_max(a.drop_last());
        if a.last().len() >= a[j].len() {
            a.len() - 1
        } else {
            j
        }
    }
}

/// The signatures that a multisig collects, in key order: whenever more than
/// `k` are held, the longest is dropped.
pub open spec fn ms_collect(k: nat, pks: Seq<PublicKey>, km: Seq<(PublicKey, Vec<u8>)>) -> Witness
    decreases pks.len(),
{
    if pks.len() == 0 {
        seq![]
    } else {
        let acc = ms_collect(k, pks.drop_last(), km);
        match find_sig(km, pks.last()) {
            None => acc,
            Some(s) => {
                let a = acc.push(s);
                if a.len() > k {
                    a.remove(last_max(a))
                } else {
                    a
                }
            },
        }
    }
}

/// `<k> <pk...> <n> CHECKMULTISIG`: `k` signatures, then the empty dummy push.
pub open spec fn sat_multisig(k: usize, pks: Seq<PublicKey>, km: Seq<(PublicKey, Vec<u8>)>) -> SatResult {
    let c = ms_collect(k as nat, pks, km);
    if c.len() == k {
        Ok(c.push(seq![]))
    } else {
        Err(ErrorView::CouldNotSatisfy)
    }
}

/// Both parts of a conjunction, the witness of the part run second first.
pub open spec fn and_sat(l: SatResult, r: SatResult) -> SatResult {
    match l {
        Err(e) => Err(e),
        Ok(lw) => match r {
            Err(e) => Err(e),
            Ok(rw) => Ok(rw + lw),
        },
    }
}

/// `<l> <r> BOOLOR`: one side satisfied, the other dissatisfied, the cheaper
/// combination when both can be satisfied, the left one on a tie.
pub open spec fn parallel_or(ls: SatResult, rs: SatResult, ld: SatResult, rd: SatResult) -> SatResult {
    match (ls, rs) {
        (Ok(l), Err(_)) => match rd {
            Err(e) => Err(e),
            Ok(d) => Ok(l + d),
        },
        (Err(_), Ok(r)) => match ld {
            Err(e) => Err(e),
            Ok(d) => Ok(d + r),
        },
        (Err(e), Err(_)) => Err(e),
        (Ok(l), Ok(r)) => match ld {
            Err(e) => Err(e),
            Ok(dl) => match rd {
                Err(e) => Err(e),
                Ok(dr) => if cost(l) + cost(dr) <= cost(r) + cost(dl) {
                    Ok(l + dr)
                } else {
                    Ok(dl + r)
                },
            },
        },
    }
}

/// `IF <l> ELSE <r> ENDIF` behind a selector: `[1]` takes the left branch,
/// the empty push the right one.
pub open spec fn switch_or(ls: SatResult, rs: SatResult) -> SatResult {
    match (ls, rs) {
        (Err(e), Err(_)) => Err(e),
        (Ok(l), Err(_)) => Ok(l.push(seq![1u8])),
        (Err(_), Ok(r)) => Ok(r.push(seq![])),
        (Ok(l), Ok(r)) => if cost(l) + 2 <= cost(r) + 1 {
            Ok(l.push(seq![1u8]))
        } else {
            Ok(r.push(seq![]))
        },
    }
}

/// `<l> NOTIF <r> ENDIF`: the left side, or the left side dissatisfied and the
/// right one satisfied, whichever is cheaper.
pub open spec fn cascade_or(ls: SatResult, rs: SatResult, ld: SatResult) -> SatResult {
    match (ls, rs) {
        (Err(e), Err(_)) => Err(e),
        (Ok(l), Err(_)) => Ok(l),
        (Err(_), Ok(r)) => match ld {
            Err(e) => Err(e),
            Ok(d) => Ok(d + r),
        },
        (Ok(l), Ok(r)) => match ld {
            Err(e) => Err(e),
            Ok(d) => if cost(l) <= cost(r) + cost(d) {
                Ok(l)
            } else {
                Ok(d + r)
            },
        },
    }
}

/// A satisfaction followed by the push `p`.
pub open spec fn then_push(r: SatResult, p: Seq<u8>) -> SatResult {
    match r {
        Ok(w) => Ok(w.push(p)),
        Err(e) => Err(e),
    }
}

/// Two outcomes concatenated, the first error winning.
pub open spec fn concat(a: SatResult, b: SatResult) -> SatResult {
    match a {
        Err(e) => Err(e),
        Ok(x) => match b {
            Err(e) => Err(e),
            Ok(y) => Ok(x + y),
        },
    }
}

/// The cost of a satisfied outcome.
pub open spec fn res_cost(r: SatResult) -> nat {
    match r {
        Ok(w) => cost(w),
        Err(_) => 0,
    }
}

/// The number of satisfied outcomes.
pub open spec fn count_ok(s: Seq<SatResult>) -> nat
    decreases s.len(),
{
    if s.len() == 0 {
        0
    } else {
        count_ok(s.drop_last()) + if s.last() is Ok { 1nat } else { 0nat }
    }
}

/// Child `j` is satisfied and comes before child `i` in the order by cost, then index.
pub open spec fn better(s: Seq<SatResult>, j: int, i: int) -> bool {
    s[j] is Ok && (res_cost(s[j]) < res_cost(s[i]) || (res_cost(s[j]) == res_cost(s[i]) && j < i))
}

/// The number of children among the first `m` that come before child `i`.
pub open spec fn rank(s: Seq<SatResult>, i: int, m: int) -> nat
    decreases m,
{
    if m <= 0 {
        0
    } else {
        rank(s, i, m - 1) + if better(s, m - 1, i) { 1nat } else { 0nat }
    }
}

/// Child `i` is among the `k` cheapest satisfied children.
pub open spec fn selected(k: nat, s: Seq<SatResult>, i: int) -> bool {
    s[i] is Ok && rank(s, i, s.len() as int) < k
}

/// The witnesses of the first `m` children: satisfied if selected, else dissatisfied.
pub open spec fn emit(k: nat, s: Seq<SatResult>, d: Seq<SatResult>, m: int) -> SatResult
    decreases m,
{
    if m <= 0 {
        Ok(seq![])
    } else {
        concat(emit(k, s, d, m - 1), if selected(k, s, m - 1) { s[m - 1] } else { d[m - 1] })
    }
}

/// A threshold of `k` among children with the given satisfactions and dissatisfactions.
pub open spec fn thresh(k: usize, s: Seq<SatResult>, d: Seq<SatResult>) -> SatResult {
    if k == 0 {
        Ok(seq![])
    } else if count_ok(s) < k {
        Err(ErrorView::CouldNotSatisfy)
    } else {
        emit(k as nat, s, d, s.len() as int)
    }
}

/// The satisfactions of a list of W expressions.
pub open spec fn sat_ws(ws: Seq<W>, g: Ingredients) -> Seq<SatResult>
    decreases ws,
{
    if ws.len() == 0 {
        seq![]
    } else {
        sat_ws(ws.drop_last(), g).push(sat_w(ws.last(), g))
    }
}

/// The dissatisfactions of a list of W expressions.
pub open spec fn dissat_ws(ws: Seq<W>, pm: Seq<(Hash160, PublicKey)>) -> Seq<SatResult>
    decreases ws,
{
    if ws.len() == 0 {
        seq![]
    } else {
        dissat_ws(ws.drop_last(), pm).push(dissat_w(ws.last(), pm))
    }
}

/// The witness that satisfies an E expression.
pub open spec fn sat_e(e: E, g: Ingredients) -> SatResult
    decreases e,
{
    match e {
        E::CheckSig(pk) => sat_checksig(pk, g.km),
        E::CheckSigHash(h) => sat_checksighash(h, g.km, g.pm),
        E::CheckSigHashF(h) => sat_checksighash(h, g.km, g.pm),
        E::CheckMultiSig(k, pks) => sat_multisig(k, pks@, g.km),
        E::CheckMultiSigF(k, pks) => sat_multisig(k, pks@, g.km),
        E::HashEqual(h) => sat_hashequal(h, g.hm),
        E::Threshold(k, s, ws) => thresh(k, seq![sat_e(*s, g)] + sat_ws(ws@, g),
            seq![dissat_e(*s, g.pm)] + dissat_ws(ws@, g.pm)),
        E::ParallelAnd(l, r) => and_sat(sat_e(*l, g), sat_w(*r, g)),
        E::CascadeAnd(l, r) => and_sat(sat_e(*l, g), sat_f(*r, g)),
        E::ParallelOr(l, r) => parallel_or(sat_e(*l, g), sat_w(*r, g), dissat_e(*l, g.pm), dissat_w(*r, g.pm)),
        E::CascadeOr(l, r) => cascade_or(sat_e(*l, g), sat_e(*r, g), dissat_e(*l, g.pm)),
        E::CastF(f) => then_push(sat_f(*f, g), seq![1u8]),
    }
}

/// The witness that satisfies a W expression.
pub open spec fn sat_w(w: W, g: Ingredients) -> SatResult
    decreases w,
{
    match w {
        W::CheckSig(pk) => sat_checksig(pk, g.km),
        W::HashEqual(h) => sat_hashequal(h, g.hm),
        W::Csv(n) => match sat_csv(n, g.age) {
            Ok(_) => Ok(seq![seq![1u8]]),
            Err(e) => Err(e),
        },
        W::CastE(e) => sat_e(*e, g),
    }
}

/// The witness that satisfies an F expression.
pub open spec fn sat_f(f: F, g: Ingredients) -> SatResult
    decreases f,
{
    match f {
        F::CheckSig(pk) => sat_checksig(pk, g.km),
        F::CheckMultiSig(k, pks) => sat_multisig(k, pks@, g.km),
        F::CheckSigHash(h) => sat_checksighash(h, g.km, g.pm),
        F::Csv(n) => sat_csv(n, g.age),
        F::HashEqual(h) => sat_hashequal(h, g.hm),
        F::Threshold(k, s, ws) => thresh(k, seq![sat_e(*s, g)] + sat_ws(ws@, g),
            seq![dissat_e(*s, g.pm)] + dissat_ws(ws@, g.pm)),
        F::And(l, r) => and_sat(sat_v(*l, g), sat_f(*r, g)),
        F::ParallelOr(l, r) => parallel_or(sat_e(*l, g), sat_w(*r, g), dissat_e(*l, g.pm), dissat_w(*r, g.pm)),
        F::SwitchOr(l, r) => switch_or(sat_f(*l, g), sat_f(*r, g)),
        F::SwitchOrV(l, r) => switch_or(sat_v(*l, g), sat_v(*r, g)),
        F::CascadeOr(l, r) => cascade_or(sat_e(*l, g), sat_f(*r, g), dissat_e(*l, g.pm)),
        F::CascadeOrV(l, r) => cascade_or(sat_e(*l, g), sat_v(*r, g), dissat_e(*l, g.pm)),
    }
}

/// The witness that satisfies a V expression.
pub open spec fn sat_v(v: V, g: Ingredients) -> SatResult
    decreases v,
{
    match v {
        V::CheckSig(pk) => sat_checksig(pk, g.km),
        V::CheckMultiSig(k, pks) => sat_multisig(k, pks@, g.km),
        V::CheckSigHash(h) => sat_checksighash(h, g.km, g.pm),
        V::Csv(n) => sat_csv(n, g.age),
        V::HashEqual(h) => sat_hashequal(h, g.hm),
        V::Threshold(k, s, ws) => thresh(k, seq![sat_e(*s, g)] + sat_ws(ws@, g),
            seq![dissat_e(*s, g.pm)] + dissat_ws(ws@, g.pm)),
        V::And(l, r) => and_sat(sat_v(*l, g), sat_v(*r, g)),
        V::ParallelOr(l, r) => parallel_or(sat_e(*l, g), sat_w(*r, g), dissat_e(*l, g.pm), dissat_w(*r, g.pm)),
        V::SwitchOr(l, r) => switch_or(sat_v(*l, g), sat_v(*r, g)),
        V::SwitchOrT(l, r) => switch_or(sat_t(*l, g), sat_t(*r, g)),
        V::CascadeOr(l, r) => cascade_or(sat_e(*l, g), sat_v(*r, g), dissat_e(*l, g.pm)),
    }
}

/// The witness that satisfies a T expression.
pub open spec fn sat_t(t: T, g: Ingredients) -> SatResult
    decreases t,
{
    match t {
        T::HashEqual(h) => sat_hashequal(h, g.hm),
        T::And(l, r) => and_sat(sat_v(*l, g), sat_t(*r, g)),
        T::SwitchOr(l, r) => switch_or(sat_t(*l, g), sat_t(*r, g)),
        T::CascadeOr(l, r) => cascade_or(sat_e(*l, g), sat_t(*r, g), dissat_e(*l, g.pm)),
        T::CastE(e) => sat_e(*e, g),
        T::CastF(f) => sat_f(*f, g),
    }
}

/// The witness that dissatisfies an E expression.
pub open spec fn dissat_e(e: E, pm: Seq<(Hash160, PublicKey)>) -> SatResult
    decreases e,
{
    match e {
        E::CheckSig(_) => Ok(seq![seq![]]),
        E::CheckSigHash(h) => dissat_pkh(h, pm),
        E::CheckSigHashF(h) => dissat_pkh(h, pm),
        E::CheckMultiSig(k, _) => Ok(Seq::new((k + 1) as nat, |i: int| Seq::<u8>::empty())),
        E::CheckMultiSigF(k, _) => Ok(Seq::new((k + 1) as nat, |i: int| Seq::<u8>::empty())),
        E::HashEqual(_) => Ok(seq![seq![]]),
        E::Threshold(_, s, ws) => concat_all(seq![dissat_e(*s, pm)] + dissat_ws(ws@, pm)),
        E::ParallelAnd(l, r) => concat(dissat_e(*l, pm), dissat_w(*r, pm)),
        E::CascadeAnd(l, _) => dissat_e(*l, pm),
        E::ParallelOr(l, r) => concat(dissat_e(*l, pm), dissat_w(*r, pm)),
        E::CascadeOr(l, r) => concat(dissat_e(*l, pm), dissat_e(*r, pm)),
        E::CastF(_) => Ok(seq![]),
    }
}

/// The witness that dissatisfies a W expression.
pub open spec fn dissat_w(w: W, pm: Seq<(Hash160, PublicKey)>) -> SatResult
    decreases w,
{
    match w {
        W::CheckSig(_) => Ok(seq![seq![]]),
        W::HashEqual(_) => Ok(seq![seq![]]),
        W::Csv(_) => Ok(seq![]),
        W::CastE(e) => dissat_e(*e, pm),
    }
}

/// `[empty, pk]` for a pay-to-pubkey-hash check.
pub open spec fn dissat_pkh(h: Hash160, pm: Seq<(Hash160, PublicKey)>) -> SatResult {
    match find_pk(pm, h) {
        Some(pk) => Ok(seq![seq![], pk.bytes@]),
        None => Err(ErrorView::MissingPubkey(h)),
    }
}

/// All outcomes concatenated in order, the first error winning.
pub open spec fn concat_all(s: Seq<SatResult>) -> SatResult
    decreases s.len(),
{
    if s.len() == 0 {
        Ok(seq![])
    } else {
        concat(concat_all(s.drop_last()), s.last())
    }
}


/// Compares two keys.
fn keys_eq(a: &PublicKey, b: &PublicKey) -> (r: bool)
    ensures
        r == (*a == *b),
{
    let r = bytes_eq(a.bytes.as_slice(), b.bytes.as_slice());
    proof {
        if r {
            lemma_pubkey_eq(*a, *b);
        }
    }
    r
}

/// Compares two hashes.
fn hash160_eq(a: &Hash160, b: &Hash160) -> (r: bool)
    ensures
        r == (*a == *b),
{
    let r = bytes_eq(a.bytes.as_slice(), b.bytes.as_slice());
    proof {
        if r {
            assert(a.bytes =~= b.bytes) by {
                assert forall|i: int| 0 <= i < 20 implies a.bytes[i] == b.bytes[i] by {
                    assert(a.bytes@[i] == b.bytes@[i]);
                }
            }
        }
    }
    r
}

/// Compares two hashes.
fn sha_eq(a: &Sha256dHash, b: &Sha256dHash) -> (r: bool)
    ensures
        r == (*a == *b),
{
    let r = bytes_eq(a.bytes.as_slice(), b.bytes.as_slice());
    proof {
        if r {
            assert(a.bytes =~= b.bytes) by {
                assert forall|i: int| 0 <= i < 32 implies a.bytes[i] == b.bytes[i] by {
                    assert(a.bytes@[i] == b.bytes@[i]);
                }
            }
        }
    }
    r
}

/// Looks up the signature for a key.
fn lookup_sig(km: &Vec<(PublicKey, Vec<u8>)>, pk: &PublicKey) -> (r: Option<Vec<u8>>)
    ensures
        r is None <==> find_sig(km@, *pk) is None,
        r is Some ==> r->Some_0@ == find_sig(km@, *pk)->Some_0,
{
    let mut i: usize = 0;
    assert(km@.skip(0) =~= km@);
    while i < km.len()
        invariant
            i <= km@.len(),
            find_sig(km@, *pk) == find_sig(km@.skip(i as int), *pk),
        decreases km@.len() - i,
    {
        assert(km@.skip(i as int).skip(1) =~= km@.skip(i + 1));
        if keys_eq(&km[i].0, pk) {
            return Some(slice_to_vec(km[i].1.as_slice()));
        }
        i = i + 1;
    }
    None
}

/// Looks up the public key for a hash.
fn lookup_pk(pm: &Vec<(Hash160, PublicKey)>, h: &Hash160) -> (r: Option<PublicKey>)
    ensures
        r == find_pk(pm@, *h),
{
    let mut i: usize = 0;
    assert(pm@.skip(0) =~= pm@);
    while i < pm.len()
        invariant
            i <= pm@.len(),
            find_pk(pm@, *h) == find_pk(pm@.skip(i as int), *h),
        decreases pm@.len() - i,
    {
        assert(pm@.skip(i as int).skip(1) =~= pm@.skip(i + 1));
        if hash160_eq(&pm[i].0, h) {
            return Some(pm[i].1);
        }
        i = i + 1;
    }
    None
}

/// Looks up the preimage of a hash.
fn lookup_pre(hm: &Vec<(Sha256dHash, [u8; 32])>, h: &Sha256dHash) -> (r: Option<Vec<u8>>)
    ensures
        r is None <==> find_pre(hm@, *h) is None,
        r is Some ==> r->Some_0@ == find_pre(hm@, *h)->Some_0,
{
    let mut i: usize = 0;
    assert(hm@.skip(0) =~= hm@);
    while i < hm.len()
        invariant
            i <= hm@.len(),
            find_pre(hm@, *h) == find_pre(hm@.skip(i as int), *h),
        decreases hm@.len() - i,
    {
        assert(hm@.skip(i as int).skip(1) =~= hm@.skip(i + 1));
        if sha_eq(&hm[i].0, h) {
            return Some(slice_to_vec(hm[i].1.as_slice()));
        }
        i = i + 1;
    }
    None
}

/// Computes witness size: one length byte and the bytes of each push,
/// saturated at the largest machine word.
pub fn satisfy_cost(s: &[Vec<u8>]) -> (r: usize)
    ensures
        r == cost(wv(s@)),
{
    let mut acc: usize = 0;
    let mut i: usize = 0;
    while i < s.len()
        invariant
            i <= s@.len(),
            acc == cost(wv(s@.subrange(0, i as int))),
        decreases s@.len() - i,
    {
        proof {
            let a = wv(s@.subrange(0, i + 1));
            assert(a.drop_last() =~= wv(s@.subrange(0, i as int)));
            assert(a.last() == s@[i as int]@);
        }
        let t: u128 = acc as u128 + 1 + s[i].len() as u128;
        acc = if t > usize::MAX as u128 {
            usize::MAX
        } else {
            t as usize
        };
        i = i + 1;
    }
    assert(s@.subrange(0, s@.len() as int) =~= s@);
    acc
}

/// Joins two witnesses.
fn cat(a: Vec<Vec<u8>>, b: Vec<Vec<u8>>) -> (r: Vec<Vec<u8>>)
    ensures
        wv(r@) == wv(a@) + wv(b@),
{
    let mut a = a;
    let mut b = b;
    let ghost a0 = a@;
    let ghost b0 = b@;
    a.append(&mut b);
    assert(wv(a@) =~= wv(a0) + wv(b0));
    a
}

/// A witness followed by one more push.
fn push_wit(a: Vec<Vec<u8>>, p: Vec<u8>) -> (r: Vec<Vec<u8>>)
    ensures
        wv(r@) == wv(a@).push(p@),
{
    let mut a = a;
    let ghost a0 = a@;
    a.push(p);
    assert(wv(a@) =~= wv(a0).push(p@));
    a
}

/// The push `[1]`.
fn one() -> (r: Vec<u8>)
    ensures
        r@ == seq![1u8],
{
    let mut v: Vec<u8> = Vec::new();
    v.push(1);
    assert(v@ =~= seq![1u8]);
    v
}

/// Helper function that produces a checksig(verify) satisfaction
fn satisfy_checksig(pk: &PublicKey, km: &Vec<(PublicKey, Vec<u8>)>) -> (r: Result<Vec<Vec<u8>>, Error>)
    ensures
        rv(r) == sat_checksig(*pk, km@),
{
    match lookup_sig(km, pk) {
        Some(sig) => {
            let r = push_wit(Vec::new(), sig);
            assert(wv(r@) =~= seq![find_sig(km@, *pk)->Some_0]);
            Ok(r)
        },
        None => Err(Error::MissingSig(*pk)),
    }
}

/// Helper function that produces a checksig(verify)hash satisfaction
fn satisfy_checksighash(
    h: &Hash160,
    km: &Vec<(PublicKey, Vec<u8>)>,
    pm: &Vec<(Hash160, PublicKey)>,
) -> (r: Result<Vec<Vec<u8>>, Error>)
    ensures
        rv(r) == sat_checksighash(*h, km@, pm@),
{
    match lookup_pk(pm, h) {
        Some(pk) => match lookup_sig(km, &pk) {
            Some(sig) => {
                let r = push_wit(push_wit(Vec::new(), sig), slice_to_vec(pk.bytes.as_slice()));
                assert(wv(r@) =~= seq![find_sig(km@, pk)->Some_0, pk.bytes@]);
                Ok(r)
            },
            None => Err(Error::MissingSig(pk)),
        },
        None => Err(Error::MissingPubkey(*h)),
    }
}

/// The index of the last of the longest pushes.
fn max_index(v: &Vec<Vec<u8>>) -> (r: usize)
    requires
        v@.len() > 0,
    ensures
        r as int == last_max(wv(v@)),
        r < v@.len(),
{
    let mut best: usize = 0;
    let mut j: usize = 1;
    while j < v.len()
        invariant
            1 <= j <= v@.len(),
            best < j,
            best as int == last_max(wv(v@).subrange(0, j as int)),
        decreases v@.len() - j,
    {
        proof {
            let a = wv(v@).subrange(0, j + 1);
            assert(a.drop_last() =~= wv(v@).subrange(0, j as int));
        }
        if v[j].len() >= v[best].len() {
            best = j;
        }
        j = j + 1;
    }
    assert(wv(v@).subrange(0, v@.len() as int) =~= wv(v@));
    best
}

/// Helper function that produces a checkmultisig(verify) satisfaction
fn satisfy_checkmultisig(k: usize, keys: &Vec<PublicKey>, km: &Vec<(PublicKey, Vec<u8>)>) -> (r: Result<
    Vec<Vec<u8>>,
    Error,
>)
    ensures
        rv(r) == sat_multisig(k, keys@, km@),
{
    let mut ret: Vec<Vec<u8>> = Vec::new();
    let mut i: usize = 0;
    assert(wv(ret@) =~= ms_collect(k as nat, keys@.subrange(0, 0), km@));
    while i < keys.len()
        invariant
            i <= keys@.len(),
            wv(ret@) == ms_collect(k as nat, keys@.subrange(0, i as int), km@),
        decreases keys@.len() - i,
    {
        proof {
            let p = keys@.subrange(0, i + 1);
            assert(p.drop_last() =~= keys@.subrange(0, i as int));
            assert(p.last() == keys@[i as int]);
        }
        match lookup_sig(km, &keys[i]) {
            Some(sig) => {
                let ghost before = wv(ret@);
                ret.push(sig);
                assert(wv(ret@) =~= before.push(find_sig(km@, keys@[i as int])->Some_0));
                if ret.len() > k {
                    let m = max_index(&ret);
                    let ghost pushed = wv(ret@);
                    ret.remove(m);
                    assert(wv(ret@) =~= pushed.remove(m as int));
                }
            },
            None => {},
        }
        i = i + 1;
    }
    assert(keys@.subrange(0, keys@.len() as int) =~= keys@);
    if ret.len() == k {
        let r = push_wit(ret, Vec::new());
        assert(wv(r@) =~= ms_collect(k as nat, keys@, km@).push(seq![]));
        Ok(r)
    } else {
        Err(Error::CouldNotSatisfy)
    }
}

/// Helper function that produces a hash preimage satisfaction
fn satisfy_hashequal(h: &Sha256dHash, hm: &Vec<(Sha256dHash, [u8; 32])>) -> (r: Result<Vec<Vec<u8>>, Error>)
    ensures
        rv(r) == sat_hashequal(*h, hm@),
{
    match lookup_pre(hm, h) {
        Some(pre) => {
            let r = push_wit(Vec::new(), pre);
            assert(wv(r@) =~= seq![find_pre(hm@, *h)->Some_0]);
            Ok(r)
        },
        None => Err(Error::MissingHash(*h)),
    }
}

/// Satisfies a relative locktime: the empty witness once the age reaches `n`.
pub fn satisfy_csv(n: u32, age: u32) -> (r: Result<Vec<Vec<u8>>, Error>)
    ensures
        rv(r) == sat_csv(n, age),
{
    if age >= n {
        let r: Vec<Vec<u8>> = Vec::new();
        assert(wv(r@) =~= Seq::<Seq<u8>>::empty());
        Ok(r)
    } else {
        Err(Error::LocktimeNotMet(n))
    }
}

/// Both parts of a conjunction.
fn comb_and(l: Result<Vec<Vec<u8>>, Error>, r: Result<Vec<Vec<u8>>, Error>) -> (o: Result<Vec<Vec<u8>>, Error>)
    ensures
        rv(o) == and_sat(rv(l), rv(r)),
{
    match l {
        Err(e) => Err(e),
        Ok(lw) => match r {
            Err(e) => Err(e),
            Ok(rw) => Ok(cat(rw, lw)),
        },
    }
}

/// Two outcomes joined.
fn comb_concat(l: Result<Vec<Vec<u8>>, Error>, r: Result<Vec<Vec<u8>>, Error>) -> (o: Result<Vec<Vec<u8>>, Error>)
    ensures
        rv(o) == concat(rv(l), rv(r)),
{
    match l {
        Err(e) => Err(e),
        Ok(lw) => match r {
            Err(e) => Err(e),
            Ok(rw) => Ok(cat(lw, rw)),
        },
    }
}

/// An outcome followed by a push.
fn comb_then_push(r: Result<Vec<Vec<u8>>, Error>, p: Vec<u8>) -> (o: Result<Vec<Vec<u8>>, Error>)
    ensures
        rv(o) == then_push(rv(r), p@),
{
    match r {
        Err(e) => Err(e),
        Ok(w) => Ok(push_wit(w, p)),
    }
}

/// `<l> <r> BOOLOR`.
fn comb_parallel_or(
    ls: Result<Vec<Vec<u8>>, Error>,
    rs: Result<Vec<Vec<u8>>, Error>,
    ld: Result<Vec<Vec<u8>>, Error>,
    rd: Result<Vec<Vec<u8>>, Error>,
) -> (o: Result<Vec<Vec<u8>>, Error>)
    ensures
        rv(o) == parallel_or(rv(ls), rv(rs), rv(ld), rv(rd)),
{
    match (ls, rs) {
        (Ok(l), Err(_)) => match rd {
            Err(e) => Err(e),
            Ok(d) => Ok(cat(l, d)),
        },
        (Err(_), Ok(r)) => match ld {
            Err(e) => Err(e),
            Ok(d) => Ok(cat(d, r)),
        },
        (Err(e), Err(_)) => Err(e),
        (Ok(l), Ok(r)) => match ld {
            Err(e) => Err(e),
            Ok(dl) => match rd {
                Err(e) => Err(e),
                Ok(dr) => {
                    if satisfy_cost(l.as_slice()) as u128 + satisfy_cost(dr.as_slice()) as u128
                        <= satisfy_cost(r.as_slice()) as u128 + satisfy_cost(dl.as_slice()) as u128 {
                        Ok(cat(l, dr))
                    } else {
                        Ok(cat(dl, r))
                    }
                },
            },
        },
    }
}

/// `IF <l> ELSE <r> ENDIF` behind a selector.
fn comb_switch_or(ls: Result<Vec<Vec<u8>>, Error>, rs: Result<Vec<Vec<u8>>, Error>) -> (o: Result<
    Vec<Vec<u8>>,
    Error,
>)
    ensures
        rv(o) == switch_or(rv(ls), rv(rs)),
{
    match (ls, rs) {
        (Err(e), Err(_)) => Err(e),
        (Ok(l), Err(_)) => Ok(push_wit(l, one())),
        (Err(_), Ok(r)) => Ok(push_wit(r, Vec::new())),
        (Ok(l), Ok(r)) => {
            if satisfy_cost(l.as_slice()) as u128 + 2 <= satisfy_cost(r.as_slice()) as u128 + 1 {
                Ok(push_wit(l, one()))
            } else {
                Ok(push_wit(r, Vec::new()))
            }
        },
    }
}

/// `<l> NOTIF <r> ENDIF`.
fn comb_cascade_or(
    ls: Result<Vec<Vec<u8>>, Error>,
    rs: Result<Vec<Vec<u8>>, Error>,
    ld: Result<Vec<Vec<u8>>, Error>,
) -> (o: Result<Vec<Vec<u8>>, Error>)
    ensures
        rv(o) == cascade_or(rv(ls), rv(rs), rv(ld)),
{
    match (ls, rs) {
        (Err(e), Err(_)) => Err(e),
        (Ok(l), Err(_)) => Ok(l),
        (Err(_), Ok(r)) => match ld {
            Err(e) => Err(e),
            Ok(d) => Ok(cat(d, r)),
        },
        (Ok(l), Ok(r)) => match ld {
            Err(e) => Err(e),
            Ok(d) => {
                if satisfy_cost(l.as_slice()) as u128 <= satisfy_cost(r.as_slice()) as u128
                    + satisfy_cost(d.as_slice()) as u128 {
                    Ok(l)
                } else {
                    Ok(cat(d, r))
                }
            },
        },
    }
}


/// The satisfactions of a list are those of its elements.
proof fn lemma_sat_ws(ws: Seq<W>, g: Ingredients)
    ensures
        sat_ws(ws, g).len() == ws.len(),
        forall|j: int| 0 <= j < ws.len() ==> #[trigger] sat_ws(ws, g)[j] == sat_w(ws[j], g),
    decreases ws.len(),
{
    if ws.len() > 0 {
        lemma_sat_ws(ws.drop_last(), g);
    }
}

/// The dissatisfactions of a list are those of its elements.
proof fn lemma_dissat_ws(ws: Seq<W>, pm: Seq<(Hash160, PublicKey)>)
    ensures
        dissat_ws(ws, pm).len() == ws.len(),
        forall|j: int| 0 <= j < ws.len() ==> #[trigger] dissat_ws(ws, pm)[j] == dissat_w(ws[j], pm),
    decreases ws.len(),
{
    if ws.len() > 0 {
        lemma_dissat_ws(ws.drop_last(), pm);
    }
}

/// Once a threshold's children give an error, it stays the outcome.
proof fn lemma_emit_err(k: nat, s: Seq<SatResult>, d: Seq<SatResult>, m: int, m2: int)
    requires
        0 <= m <= m2,
        emit(k, s, d, m) is Err,
    ensures
        emit(k, s, d, m2) == emit(k, s, d, m),
    decreases m2 - m,
{
    if m2 > m {
        lemma_emit_err(k, s, d, m, m2 - 1);
    }
}

/// Once a concatenation meets an error, it stays the outcome.
proof fn lemma_concat_all_err(s: Seq<SatResult>, m: int, m2: int)
    requires
        0 <= m <= m2 <= s.len(),
        concat_all(s.subrange(0, m)) is Err,
    ensures
        concat_all(s.subrange(0, m2)) == concat_all(s.subrange(0, m)),
    decreases m2 - m,
{
    if m2 > m {
        lemma_concat_all_err(s, m, m2 - 1);
        assert(s.subrange(0, m2).drop_last() =~= s.subrange(0, m2 - 1));
    }
}

/// The number of children that come before child `i` in the order by cost, then index.
fn rank_of(oks: &Vec<bool>, costs: &Vec<usize>, i: usize, Ghost(s): Ghost<Seq<SatResult>>) -> (r: usize)
    requires
        oks@.len() == costs@.len() == s.len(),
        i < s.len(),
        forall|j: int| 0 <= j < s.len() ==> (oks@[j] <==> s[j] is Ok) && costs@[j] == res_cost(s[j]),
    ensures
        r == rank(s, i as int, s.len() as int),
{
    let mut rk: usize = 0;
    let mut j: usize = 0;
    while j < oks.len()
        invariant
            oks@.len() == costs@.len() == s.len(),
            i < s.len(),
            forall|j: int| 0 <= j < s.len() ==> (oks@[j] <==> s[j] is Ok) && costs@[j] == res_cost(s[j]),
            j <= s.len(),
            rk <= j,
            rk == rank(s, i as int, j as int),
        decreases s.len() - j,
    {
        if oks[j] && (costs[j] < costs[i] || (costs[j] == costs[i] && j < i)) {
            rk = rk + 1;
        }
        j = j + 1;
    }
    rk
}

/// Satisfies `k` of the children `e, subw...`, the first one's satisfaction and
/// dissatisfaction given.
fn satisfy_threshold(
    k: usize,
    es: Result<Vec<Vec<u8>>, Error>,
    ed: Result<Vec<Vec<u8>>, Error>,
    subw: &Vec<W>,
    km: &Vec<(PublicKey, Vec<u8>)>,
    pm: &Vec<(Hash160, PublicKey)>,
    hm: &Vec<(Sha256dHash, [u8; 32])>,
    age: u32,
) -> (r: Result<Vec<Vec<u8>>, Error>)
    ensures
        rv(r) == thresh(k, seq![rv(es)] + sat_ws(subw@, ing(km, pm, hm, age)), seq![rv(ed)] + dissat_ws(subw@, pm@)),
    decreases subw,
{
    let ghost g = ing(km, pm, hm, age);
    let ghost s = seq![rv(es)] + sat_ws(subw@, g);
    let ghost d = seq![rv(ed)] + dissat_ws(subw@, pm@);
    if k == 0 {
        let r: Vec<Vec<u8>> = Vec::new();
        assert(wv(r@) =~= Seq::<Seq<u8>>::empty());
        return Ok(r);
    }
    proof {
        lemma_sat_ws(subw@, g);
        lemma_dissat_ws(subw@, pm@);
    }
    let mut oks: Vec<bool> = Vec::new();
    let mut costs: Vec<usize> = Vec::new();
    match &es {
        Ok(w) => {
            oks.push(true);
            costs.push(satisfy_cost(w.as_slice()));
        },
        Err(_) => {
            oks.push(false);
            costs.push(0);
        },
    }
    let mut i: usize = 0;
    while i < subw.len()
        invariant
            s == seq![rv(es)] + sat_ws(subw@, g),
            sat_ws(subw@, g).len() == subw@.len(),
            forall|j: int| 0 <= j < subw@.len() ==> #[trigger] sat_ws(subw@, g)[j] == sat_w(subw@[j], g),
            g == ing(km, pm, hm, age),
            i <= subw@.len(),
            oks@.len() == i + 1,
            costs@.len() == i + 1,
            forall|j: int| 0 <= j < i + 1 ==> (oks@[j] <==> s[j] is Ok) && costs@[j] == res_cost(s[j]),
        decreases subw@.len() - i,
    {
        assert(decreases_to!(subw => subw[i as int]));
        let r = subw[i].satisfy(km, pm, hm, age);
        assert(s[i + 1] == rv(r));
        match &r {
            Ok(w) => {
                oks.push(true);
                costs.push(satisfy_cost(w.as_slice()));
            },
            Err(_) => {
                oks.push(false);
                costs.push(0);
            },
        }
        i = i + 1;
    }
    let mut cnt: usize = 0;
    let mut j: usize = 0;
    while j < oks.len()
        invariant
            oks@.len() == s.len(),
            forall|j: int| 0 <= j < s.len() ==> (oks@[j] <==> s[j] is Ok),
            j <= s.len(),
            cnt <= j,
            cnt == count_ok(s.subrange(0, j as int)),
        decreases s.len() - j,
    {
        assert(s.subrange(0, j + 1).drop_last() =~= s.subrange(0, j as int));
        if oks[j] {
            cnt = cnt + 1;
        }
        j = j + 1;
    }
    assert(s.subrange(0, s.len() as int) =~= s);
    if cnt < k {
        return Err(Error::CouldNotSatisfy);
    }
    // the first child
    let rk0 = rank_of(&oks, &costs, 0, Ghost(s));
    let first = if oks[0] && rk0 < k {
        es
    } else {
        ed
    };
    proof {
        assert(s[0] == rv(es));
        assert(d[0] == rv(ed));
        reveal_with_fuel(emit, 2);
        assert(emit(k as nat, s, d, 1) == concat(Ok(Seq::<Seq<u8>>::empty()), rv(first)));
    }
    let mut ret: Vec<Vec<u8>> = match first {
        Ok(w) => w,
        Err(e) => {
            proof {
                lemma_emit_err(k as nat, s, d, 1, s.len() as int);
            }
            return Err(e);
        },
    };
    assert(emit(k as nat, s, d, 1) == Ok::<Witness, ErrorView>(wv(ret@))) by {
        assert(Seq::<Seq<u8>>::empty() + wv(ret@) =~= wv(ret@));
    }
    let mut i: usize = 0;
    while i < subw.len()
        invariant
            s == seq![rv(es)] + sat_ws(subw@, g),
            d == seq![rv(ed)] + dissat_ws(subw@, pm@),
            sat_ws(subw@, g).len() == subw@.len(),
            forall|j: int| 0 <= j < subw@.len() ==> #[trigger] sat_ws(subw@, g)[j] == sat_w(subw@[j], g),
            dissat_ws(subw@, pm@).len() == subw@.len(),
            forall|j: int| 0 <= j < subw@.len() ==> #[trigger] dissat_ws(subw@, pm@)[j] == dissat_w(subw@[j], pm@),
            g == ing(km, pm, hm, age),
            i <= subw@.len(),
            oks@.len() == costs@.len() == s.len(),
            forall|j: int| 0 <= j < s.len() ==> (oks@[j] <==> s[j] is Ok) && costs@[j] == res_cost(s[j]),
            emit(k as nat, s, d, i + 1) == Ok::<Witness, ErrorView>(wv(ret@)),
            k > 0,
            count_ok(s) >= k,
        decreases subw@.len() - i,
    {
        assert(decreases_to!(subw => subw[i as int]));
        let rk = rank_of(&oks, &costs, i + 1, Ghost(s));
        let child = if oks[i + 1] && rk < k {
            subw[i].satisfy(km, pm, hm, age)
        } else {
            subw[i].dissatisfy(pm)
        };
        proof {
            assert(s[i + 1] == sat_ws(subw@, g)[i as int]);
            assert(d[i + 1] == dissat_ws(subw@, pm@)[i as int]);
            assert(emit(k as nat, s, d, i + 2) == concat(emit(k as nat, s, d, i + 1), rv(child)));
        }
        match child {
            Ok(w) => {
                ret = cat(ret, w);
            },
            Err(e) => {
                proof {
                    lemma_emit_err(k as nat, s, d, i + 2, s.len() as int);
                }
                return Err(e);
            },
        }
        i = i + 1;
    }
    Ok(ret)
}

/// Dissatisfies every child of a threshold, the first one's dissatisfaction given.
fn dissatisfy_all(ed: Result<Vec<Vec<u8>>, Error>, subw: &Vec<W>, pm: &Vec<(Hash160, PublicKey)>) -> (r: Result<
    Vec<Vec<u8>>,
    Error,
>)
    ensures
        rv(r) == concat_all(seq![rv(ed)] + dissat_ws(subw@, pm@)),
    decreases subw,
{
    let ghost d = seq![rv(ed)] + dissat_ws(subw@, pm@);
    proof {
        lemma_dissat_ws(subw@, pm@);
        assert(d.subrange(0, 1).drop_last() =~= Seq::<SatResult>::empty());
        assert(d.subrange(0, 1).last() == rv(ed));
        reveal_with_fuel(concat_all, 2);
        assert(concat_all(d.subrange(0, 1)) == concat(Ok(Seq::<Seq<u8>>::empty()), rv(ed)));
    }
    let mut ret: Vec<Vec<u8>> = match ed {
        Ok(w) => w,
        Err(e) => {
            proof {
                lemma_concat_all_err(d, 1, d.len() as int);
                assert(d.subrange(0, d.len() as int) =~= d);
            }
            return Err(e);
        },
    };
    assert(concat_all(d.subrange(0, 1)) == Ok::<Witness, ErrorView>(wv(ret@))) by {
        assert(Seq::<Seq<u8>>::empty() + wv(ret@) =~= wv(ret@));
    }
    let mut i: usize = 0;
    while i < subw.len()
        invariant
            d == seq![rv(ed)] + dissat_ws(subw@, pm@),
            dissat_ws(subw@, pm@).len() == subw@.len(),
            forall|j: int| 0 <= j < subw@.len() ==> #[trigger] dissat_ws(subw@, pm@)[j] == dissat_w(subw@[j], pm@),
            i <= subw@.len(),
            concat_all(d.subrange(0, i + 1)) == Ok::<Witness, ErrorView>(wv(ret@)),
        decreases subw@.len() - i,
    {
        assert(decreases_to!(subw => subw[i as int]));
        assert(d.subrange(0, i + 2).drop_last() =~= d.subrange(0, i + 1));
        match subw[i].dissatisfy(pm) {
            Ok(w) => {
                ret = cat(ret, w);
            },
            Err(e) => {
                proof {
                    lemma_concat_all_err(d, i + 2, d.len() as int);
                    assert(d.subrange(0, d.len() as int) =~= d);
                }
                return Err(e);
            },
        }
        i = i + 1;
    }
    assert(d.subrange(0, d.len() as int) =~= d);
    Ok(ret)
}

/// `k + 1` empty pushes.
fn empties(k: usize) -> (r: Vec<Vec<u8>>)
    ensures
        wv(r@) == Seq::new((k + 1) as nat, |i: int| Seq::<u8>::empty()),
{
    let mut r: Vec<Vec<u8>> = Vec::new();
    let v: Vec<u8> = Vec::new();
    assert(v@ =~= Seq::<u8>::empty());
    r.push(v);
    let mut i: usize = 0;
    while i < k
        invariant
            i <= k,
            r@.len() == i + 1,
            forall|j: int| 0 <= j < r@.len() ==> (#[trigger] r@[j])@ == Seq::<u8>::empty(),
        decreases k - i,
    {
        let v: Vec<u8> = Vec::new();
        assert(v@ =~= Seq::<u8>::empty());
        r.push(v);
        i = i + 1;
    }
    assert(wv(r@) =~= Seq::new((k + 1) as nat, |j: int| Seq::<u8>::empty()));
    r
}

impl E {
    /// Attempt to produce a satisfying witness
    pub fn satisfy(
        &self,
        km: &Vec<(PublicKey, Vec<u8>)>,
        pm: &Vec<(Hash160, PublicKey)>,
        hm: &Vec<(Sha256dHash, [u8; 32])>,
        age: u32,
    ) -> (r: Result<Vec<Vec<u8>>, Error>)
        ensures
            rv(r) == sat_e(*self, ing(km, pm, hm, age)),
        decreases self,
    {
        match self {
            E::CheckSig(pk) => satisfy_checksig(pk, km),
            E::CheckSigHash(h) => satisfy_checksighash(h, km, pm),
            E::CheckSigHashF(h) => satisfy_checksighash(h, km, pm),
            E::CheckMultiSig(k, keys) => satisfy_checkmultisig(*k, keys, km),
            E::CheckMultiSigF(k, keys) => satisfy_checkmultisig(*k, keys, km),
            E::HashEqual(h) => satisfy_hashequal(h, hm),
            E::Threshold(k, sube, subw) => {
                let es = sube.satisfy(km, pm, hm, age);
                let ed = sube.dissatisfy(pm);
                satisfy_threshold(*k, es, ed, subw, km, pm, hm, age)
            },
            E::ParallelAnd(l, r) => comb_and(l.satisfy(km, pm, hm, age), r.satisfy(km, pm, hm, age)),
            E::CascadeAnd(l, r) => comb_and(l.satisfy(km, pm, hm, age), r.satisfy(km, pm, hm, age)),
            E::ParallelOr(l, r) => comb_parallel_or(
                l.satisfy(km, pm, hm, age),
                r.satisfy(km, pm, hm, age),
                l.dissatisfy(pm),
                r.dissatisfy(pm),
            ),
            E::CascadeOr(l, r) => comb_cascade_or(l.satisfy(km, pm, hm, age), r.satisfy(km, pm, hm, age), l.dissatisfy(pm)),
            E::CastF(f) => comb_then_push(f.satisfy(km, pm, hm, age), one()),
        }
    }

    /// Produce a witness that makes the expression leave 0 on the stack
    pub fn dissatisfy(&self, pm: &Vec<(Hash160, PublicKey)>) -> (r: Result<Vec<Vec<u8>>, Error>)
        ensures
            rv(r) == dissat_e(*self, pm@),
        decreases self,
    {
        match self {
            E::CheckSig(..) => {
                let r = push_wit(Vec::new(), Vec::new());
                assert(wv(r@) =~= seq![Seq::<u8>::empty()]);
                Ok(r)
            },
            E::CheckSigHash(h) => dissatisfy_pkh(h, pm),
            E::CheckSigHashF(h) => dissatisfy_pkh(h, pm),
            E::CheckMultiSig(k, _) => Ok(empties(*k)),
            E::CheckMultiSigF(k, _) => Ok(empties(*k)),
            E::HashEqual(..) => {
                let r = push_wit(Vec::new(), Vec::new());
                assert(wv(r@) =~= seq![Seq::<u8>::empty()]);
                Ok(r)
            },
            E::Threshold(_, sube, subw) => dissatisfy_all(sube.dissatisfy(pm), subw, pm),
            E::ParallelAnd(l, r) => comb_concat(l.dissatisfy(pm), r.dissatisfy(pm)),
            E::CascadeAnd(l, _) => l.dissatisfy(pm),
            E::ParallelOr(l, r) => comb_concat(l.dissatisfy(pm), r.dissatisfy(pm)),
            E::CascadeOr(l, r) => comb_concat(l.dissatisfy(pm), r.dissatisfy(pm)),
            E::CastF(..) => {
                let r: Vec<Vec<u8>> = Vec::new();
                assert(wv(r@) =~= Seq::<Seq<u8>>::empty());
                Ok(r)
            },
        }
    }
}

/// `[empty, pk]` for a pay-to-pubkey-hash check.
fn dissatisfy_pkh(h: &Hash160, pm: &Vec<(Hash160, PublicKey)>) -> (r: Result<Vec<Vec<u8>>, Error>)
    ensures
        rv(r) == dissat_pkh(*h, pm@),
{
    match lookup_pk(pm, h) {
        Some(pk) => {
            let r = push_wit(push_wit(Vec::new(), Vec::new()), slice_to_vec(pk.bytes.as_slice()));
            assert(wv(r@) =~= seq![Seq::<u8>::empty(), pk.bytes@]);
            Ok(r)
        },
        None => Err(Error::MissingPubkey(*h)),
    }
}

impl W {
    /// Attempt to produce a satisfying witness
    pub fn satisfy(
        &self,
        km: &Vec<(PublicKey, Vec<u8>)>,
        pm: &Vec<(Hash160, PublicKey)>,
        hm: &Vec<(Sha256dHash, [u8; 32])>,
        age: u32,
    ) -> (r: Result<Vec<Vec<u8>>, Error>)
        ensures
            rv(r) == sat_w(*self, ing(km, pm, hm, age)),
        decreases self,
    {
        match self {
            W::CheckSig(pk) => satisfy_checksig(pk, km),
            W::HashEqual(h) => satisfy_hashequal(h, hm),
            W::Csv(n) => match satisfy_csv(*n, age) {
                Ok(_) => {
                    let r = push_wit(Vec::new(), one());
                    assert(wv(r@) =~= seq![seq![1u8]]);
                    Ok(r)
                },
                Err(e) => Err(e),
            },
            W::CastE(e) => e.satisfy(km, pm, hm, age),
        }
    }

    /// Produce a witness that makes the expression leave 0 on the stack
    pub fn dissatisfy(&self, pm: &Vec<(Hash160, PublicKey)>) -> (r: Result<Vec<Vec<u8>>, Error>)
        ensures
            rv(r) == dissat_w(*self, pm@),
        decreases self,
    {
        match self {
            W::CheckSig(..) | W::HashEqual(..) => {
                let r = push_wit(Vec::new(), Vec::new());
                assert(wv(r@) =~= seq![Seq::<u8>::empty()]);
                Ok(r)
            },
            W::Csv(..) => {
                let r: Vec<Vec<u8>> = Vec::new();
                assert(wv(r@) =~= Seq::<Seq<u8>>::empty());
                Ok(r)
            },
            W::CastE(e) => e.dissatisfy(pm),
        }
    }
}

impl F {
    /// Attempt to produce a satisfying witness
    pub fn satisfy(
        &self,
        km: &Vec<(PublicKey, Vec<u8>)>,
        pm: &Vec<(Hash160, PublicKey)>,
        hm: &Vec<(Sha256dHash, [u8; 32])>,
        age: u32,
    ) -> (r: Result<Vec<Vec<u8>>, Error>)
        ensures
            rv(r) == sat_f(*self, ing(km, pm, hm, age)),
        decreases self,
    {
        match self {
            F::CheckSig(pk) => satisfy_checksig(pk, km),
            F::CheckMultiSig(k, keys) => satisfy_checkmultisig(*k, keys, km),
            F::CheckSigHash(h) => satisfy_checksighash(h, km, pm),
            F::Csv(n) => satisfy_csv(*n, age),
            F::HashEqual(h) => satisfy_hashequal(h, hm),
            F::Threshold(k, sube, subw) => {
                let es = sube.satisfy(km, pm, hm, age);
                let ed = sube.dissatisfy(pm);
                satisfy_threshold(*k, es, ed, subw, km, pm, hm, age)
            },
            F::And(l, r) => comb_and(l.satisfy(km, pm, hm, age), r.satisfy(km, pm, hm, age)),
            F::ParallelOr(l, r) => comb_parallel_or(
                l.satisfy(km, pm, hm, age),
                r.satisfy(km, pm, hm, age),
                l.dissatisfy(pm),
                r.dissatisfy(pm),
            ),
            F::SwitchOr(l, r) => comb_switch_or(l.satisfy(km, pm, hm, age), r.satisfy(km, pm, hm, age)),
            F::SwitchOrV(l, r) => comb_switch_or(l.satisfy(km, pm, hm, age), r.satisfy(km, pm, hm, age)),
            F::CascadeOr(l, r) => comb_cascade_or(l.satisfy(km, pm, hm, age), r.satisfy(km, pm, hm, age), l.dissatisfy(pm)),
            F::CascadeOrV(l, r) => comb_cascade_or(l.satisfy(km, pm, hm, age), r.satisfy(km, pm, hm, age), l.dissatisfy(pm)),
        }
    }
}

impl V {
    /// Attempt to produce a satisfying witness
    pub fn satisfy(
        &self,
        km: &Vec<(PublicKey, Vec<u8>)>,
        pm: &Vec<(Hash160, PublicKey)>,
        hm: &Vec<(Sha256dHash, [u8; 32])>,
        age: u32,
    ) -> (r: Result<Vec<Vec<u8>>, Error>)
        ensures
            rv(r) == sat_v(*self, ing(km, pm, hm, age)),
        decreases self,
    {
        match self {
            V::CheckSig(pk) => satisfy_checksig(pk, km),
            V::CheckMultiSig(k, keys) => satisfy_checkmultisig(*k, keys, km),
            V::CheckSigHash(h) => satisfy_checksighash(h, km, pm),
            V::Csv(n) => satisfy_csv(*n, age),
            V::HashEqual(h) => satisfy_hashequal(h, hm),
            V::Threshold(k, sube, subw) => {
                let es = sube.satisfy(km, pm, hm, age);
                let ed = sube.dissatisfy(pm);
                satisfy_threshold(*k, es, ed, subw, km, pm, hm, age)
            },
            V::And(l, r) => comb_and(l.satisfy(km, pm, hm, age), r.satisfy(km, pm, hm, age)),
            V::ParallelOr(l, r) => comb_parallel_or(
                l.satisfy(km, pm, hm, age),
                r.satisfy(km, pm, hm, age),
                l.dissatisfy(pm),
                r.dissatisfy(pm),
            ),
            V::SwitchOr(l, r) => comb_switch_or(l.satisfy(km, pm, hm, age), r.satisfy(km, pm, hm, age)),
            V::SwitchOrT(l, r) => comb_switch_or(l.satisfy(km, pm, hm, age), r.satisfy(km, pm, hm, age)),
            V::CascadeOr(l, r) => comb_cascade_or(l.satisfy(km, pm, hm, age), r.satisfy(km, pm, hm, age), l.dissatisfy(pm)),
        }
    }
}

impl T {
    /// Attempt to produce a satisfying witness
    pub fn satisfy(
        &self,
        km: &Vec<(PublicKey, Vec<u8>)>,
        pm: &Vec<(Hash160, PublicKey)>,
        hm: &Vec<(Sha256dHash, [u8; 32])>,
        age: u32,
    ) -> (r: Result<Vec<Vec<u8>>, Error>)
        ensures
            rv(r) == sat_t(*self, ing(km, pm, hm, age)),
        decreases self,
    {
        match self {
            T::HashEqual(h) => satisfy_hashequal(h, hm),
            T::And(l, r) => comb_and(l.satisfy(km, pm, hm, age), r.satisfy(km, pm, hm, age)),
            T::SwitchOr(l, r) => comb_switch_or(l.satisfy(km, pm, hm, age), r.satisfy(km, pm, hm, age)),
            T::CascadeOr(l, r) => comb_cascade_or(l.satisfy(km, pm, hm, age), r.satisfy(km, pm, hm, age), l.dissatisfy(pm)),
            T::CastE(e) => e.satisfy(km, pm, hm, age),
            T::CastF(f) => f.satisfy(km, pm, hm, age),
        }
    }
}

impl ParseTree {
    /// Attempt to produce a satisfying witness for the scriptpubkey represented by the parse tree
    pub fn satisfy(
        &self,
        key_map: &Vec<(PublicKey, Vec<u8>)>,
        pkh_map: &Vec<(Hash160, PublicKey)>,
        hash_map: &Vec<(Sha256dHash, [u8; 32])>,
        age: u32,
    ) -> (r: Result<Vec<Vec<u8>>, Error>)
        ensures
            rv(r) == sat_t(*self.0, ing(key_map, pkh_map, hash_map, age)),
    {
        self.0.satisfy(key_map, pkh_map, hash_map, age)
    }
}

} // verus!
