//! Proved facts about satisfaction: which keys it consults, when it succeeds,
//! what its errors say, and that a later age keeps it possible.

use vstd::prelude::*;

use crate::ast::{E, F, T, V, W};
use crate::error::ErrorView;
use crate::keys::PublicKey;
use crate::required_keys::{rk_e, rk_f, rk_t, rk_v, rk_w, rk_ws};
use crate::satisfy::{
    concat_all, count_ok, last_max, dissat_e, dissat_w, dissat_ws, emit, find_pk, find_pre, find_sig, ms_collect, sat_e, sat_f, sat_t, sat_v, sat_w, sat_ws, selected, thresh, Ingredients, SatResult,
};

verus! {

/// No W expression of the list checks a key through its hash.
pub open spec fn no_pkh_ws(ws: Seq<W>) -> bool
    decreases ws,
{
    if ws.len() == 0 {
        true
    } else {
        no_pkh_ws(ws.drop_last()) && no_pkh_w(ws.last())
    }
}

/// The E expression checks no key through its hash.
pub open spec fn no_pkh_e(x: E) -> bool
    decreases x,
{
    match x {
        E::CheckSigHash(_) => false,
        E::CheckSigHashF(_) => false,
        E::Threshold(_, s, ws) => no_pkh_e(*s) && no_pkh_ws(ws@),
        E::ParallelAnd(l, r) => no_pkh_e(*l) && no_pkh_w(*r),
        E::CascadeAnd(l, r) => no_pkh_e(*l) && no_pkh_f(*r),
        E::ParallelOr(l, r) => no_pkh_e(*l) && no_pkh_w(*r),
        E::CascadeOr(l, r) => no_pkh_e(*l) && no_pkh_e(*r),
        E::CastF(f) => no_pkh_f(*f),
        _ => true,
    }
}

/// The W expression checks no key through its hash.
pub open spec fn no_pkh_w(x: W) -> bool
    decreases x,
{
    match x {
        W::CastE(e) => no_pkh_e(*e),
        _ => true,
    }
}

/// The F expression checks no key through its hash.
pub open spec fn no_pkh_f(x: F) -> bool
    decreases x,
{
    match x {
        F::CheckSigHash(_) => false,
        F::Threshold(_, s, ws) => no_pkh_e(*s) && no_pkh_ws(ws@),
        F::And(l, r) => no_pkh_v(*l) && no_pkh_f(*r),
        F::ParallelOr(l, r) => no_pkh_e(*l) && no_pkh_w(*r),
        F::SwitchOr(l, r) => no_pkh_f(*l) && no_pkh_f(*r),
        F::SwitchOrV(l, r) => no_pkh_v(*l) && no_pkh_v(*r),
        F::CascadeOr(l, r) => no_pkh_e(*l) && no_pkh_f(*r),
        F::CascadeOrV(l, r) => no_pkh_e(*l) && no_pkh_v(*r),
        _ => true,
    }
}

/// The V expression checks no key through its hash.
pub open spec fn no_pkh_v(x: V) -> bool
    decreases x,
{
    match x {
        V::CheckSigHash(_) => false,
        V::Threshold(_, s, ws) => no_pkh_e(*s) && no_pkh_ws(ws@),
        V::And(l, r) => no_pkh_v(*l) && no_pkh_v(*r),
        V::ParallelOr(l, r) => no_pkh_e(*l) && no_pkh_w(*r),
        V::SwitchOr(l, r) => no_pkh_v(*l) && no_pkh_v(*r),
        V::SwitchOrT(l, r) => no_pkh_t(*l) && no_pkh_t(*r),
        V::CascadeOr(l, r) => no_pkh_e(*l) && no_pkh_v(*r),
        _ => true,
    }
}

/// The T expression checks no key through its hash.
pub open spec fn no_pkh_t(x: T) -> bool
    decreases x,
{
    match x {
        T::And(l, r) => no_pkh_v(*l) && no_pkh_t(*r),
        T::SwitchOr(l, r) => no_pkh_t(*l) && no_pkh_t(*r),
        T::CascadeOr(l, r) => no_pkh_e(*l) && no_pkh_t(*r),
        T::CastE(e) => no_pkh_e(*e),
        T::CastF(f) => no_pkh_f(*f),
        _ => true,
    }
}

/// Two key maps hold the same signatures for each of the keys.
pub open spec fn agree(km1: Seq<(PublicKey, Vec<u8>)>, km2: Seq<(PublicKey, Vec<u8>)>, keys: Seq<PublicKey>) -> bool {
    forall|i: int| 0 <= i < keys.len() ==> find_sig(km1, #[trigger] keys[i]) == find_sig(km2, keys[i])
}

/// Two sets of ingredients that differ at most in their signatures.
pub open spec fn same_but_sigs(g1: Ingredients, g2: Ingredients) -> bool {
    g1.pm == g2.pm && g1.hm == g2.hm && g1.age == g2.age
}

proof fn lemma_agree_split(km1: Seq<(PublicKey, Vec<u8>)>, km2: Seq<(PublicKey, Vec<u8>)>, a: Seq<PublicKey>, b: Seq<PublicKey>)
    requires
        agree(km1, km2, a + b),
    ensures
        agree(km1, km2, a),
        agree(km1, km2, b),
{
    assert forall|i: int| 0 <= i < a.len() implies find_sig(km1, #[trigger] a[i]) == find_sig(km2, a[i]) by {
        assert((a + b)[i] == a[i]);
    }
    assert forall|i: int| 0 <= i < b.len() implies find_sig(km1, #[trigger] b[i]) == find_sig(km2, b[i]) by {
        assert((a + b)[a.len() + i] == b[i]);
    }
}

proof fn lemma_ms_agree(k: nat, pks: Seq<PublicKey>, km1: Seq<(PublicKey, Vec<u8>)>, km2: Seq<(PublicKey, Vec<u8>)>)
    requires
        agree(km1, km2, pks),
    ensures
        ms_collect(k, pks, km1) == ms_collect(k, pks, km2),
    decreases pks.len(),
{
    if pks.len() > 0 {
        assert(pks.drop_last() + seq![pks.last()] =~= pks);
        lemma_agree_split(km1, km2, pks.drop_last(), seq![pks.last()]);
        assert(seq![pks.last()][0] == pks.last());
        lemma_ms_agree(k, pks.drop_last(), km1, km2);
    }
}

proof fn lemma_keys_ws(ws: Seq<W>, g1: Ingredients, g2: Ingredients)
    requires
        no_pkh_ws(ws),
        same_but_sigs(g1, g2),
        agree(g1.km, g2.km, rk_ws(ws)),
    ensures
        sat_ws(ws, g1) == sat_ws(ws, g2),
    decreases ws,
{
    if ws.len() > 0 {
        lemma_agree_split(g1.km, g2.km, rk_ws(ws.drop_last()), rk_w(ws.last()));
        lemma_keys_ws(ws.drop_last(), g1, g2);
        lemma_keys_w(ws.last(), g1, g2);
    }
}

proof fn lemma_keys_e(x: E, g1: Ingredients, g2: Ingredients)
    requires
        no_pkh_e(x),
        same_but_sigs(g1, g2),
        agree(g1.km, g2.km, rk_e(x)),
    ensures
        sat_e(x, g1) == sat_e(x, g2),
    decreases x,
{
    match x {
        E::CheckSig(pk) => {
            assert(rk_e(x)[0] == pk);
        },
        E::CheckMultiSig(k, keys) => {
            lemma_ms_agree(k as nat, keys@, g1.km, g2.km);
        },
        E::CheckMultiSigF(k, keys) => {
            lemma_ms_agree(k as nat, keys@, g1.km, g2.km);
        },
        E::Threshold(_, s, ws) => {
            lemma_agree_split(g1.km, g2.km, rk_e(*s), rk_ws(ws@));
            lemma_keys_e(*s, g1, g2);
            lemma_keys_ws(ws@, g1, g2);
        },
        E::ParallelAnd(l, r) => {
            lemma_agree_split(g1.km, g2.km, rk_e(*l), rk_w(*r));
            lemma_keys_e(*l, g1, g2);
            lemma_keys_w(*r, g1, g2);
        },
        E::CascadeAnd(l, r) => {
            lemma_agree_split(g1.km, g2.km, rk_e(*l), rk_f(*r));
            lemma_keys_e(*l, g1, g2);
            lemma_keys_f(*r, g1, g2);
        },
        E::ParallelOr(l, r) => {
            lemma_agree_split(g1.km, g2.km, rk_e(*l), rk_w(*r));
            lemma_keys_e(*l, g1, g2);
            lemma_keys_w(*r, g1, g2);
        },
        E::CascadeOr(l, r) => {
            lemma_agree_split(g1.km, g2.km, rk_e(*l), rk_e(*r));
            lemma_keys_e(*l, g1, g2);
            lemma_keys_e(*r, g1, g2);
        },
        E::CastF(f) => {
            lemma_keys_f(*f, g1, g2);
        },
        _ => {},
    }
}

proof fn lemma_keys_w(x: W, g1: Ingredients, g2: Ingredients)
    requires
        no_pkh_w(x),
        same_but_sigs(g1, g2),
        agree(g1.km, g2.km, rk_w(x)),
    ensures
        sat_w(x, g1) == sat_w(x, g2),
    decreases x,
{
    match x {
        W::CheckSig(pk) => {
            assert(rk_w(x)[0] == pk);
        },
        W::CastE(e) => {
            lemma_keys_e(*e, g1, g2);
        },
        _ => {},
    }
}

proof fn lemma_keys_f(x: F, g1: Ingredients, g2: Ingredients)
    requires
        no_pkh_f(x),
        same_but_sigs(g1, g2),
        agree(g1.km, g2.km, rk_f(x)),
    ensures
        sat_f(x, g1) == sat_f(x, g2),
    decreases x,
{
    match x {
        F::CheckSig(pk) => {
            assert(rk_f(x)[0] == pk);
        },
        F::CheckMultiSig(k, keys) => {
            lemma_ms_agree(k as nat, keys@, g1.km, g2.km);
        },
        F::Threshold(_, s, ws) => {
            lemma_agree_split(g1.km, g2.km, rk_e(*s), rk_ws(ws@));
            lemma_keys_e(*s, g1, g2);
            lemma_keys_ws(ws@, g1, g2);
        },
        F::And(l, r) => {
            lemma_agree_split(g1.km, g2.km, rk_v(*l), rk_f(*r));
            lemma_keys_v(*l, g1, g2);
            lemma_keys_f(*r, g1, g2);
        },
        F::ParallelOr(l, r) => {
            lemma_agree_split(g1.km, g2.km, rk_e(*l), rk_w(*r));
            lemma_keys_e(*l, g1, g2);
            lemma_keys_w(*r, g1, g2);
        },
        F::SwitchOr(l, r) => {
            lemma_agree_split(g1.km, g2.km, rk_f(*l), rk_f(*r));
            lemma_keys_f(*l, g1, g2);
            lemma_keys_f(*r, g1, g2);
        },
        F::SwitchOrV(l, r) => {
            lemma_agree_split(g1.km, g2.km, rk_v(*l), rk_v(*r));
            lemma_keys_v(*l, g1, g2);
            lemma_keys_v(*r, g1, g2);
        },
        F::CascadeOr(l, r) => {
            lemma_agree_split(g1.km, g2.km, rk_e(*l), rk_f(*r));
            lemma_keys_e(*l, g1, g2);
            lemma_keys_f(*r, g1, g2);
        },
        F::CascadeOrV(l, r) => {
            lemma_agree_split(g1.km, g2.km, rk_e(*l), rk_v(*r));
            lemma_keys_e(*l, g1, g2);
            lemma_keys_v(*r, g1, g2);
        },
        _ => {},
    }
}

proof fn lemma_keys_v(x: V, g1: Ingredients, g2: Ingredients)
    requires
        no_pkh_v(x),
        same_but_sigs(g1, g2),
        agree(g1.km, g2.km, rk_v(x)),
    ensures
        sat_v(x, g1) == sat_v(x, g2),
    decreases x,
{
    match x {
        V::CheckSig(pk) => {
            assert(rk_v(x)[0] == pk);
        },
        V::CheckMultiSig(k, keys) => {
            lemma_ms_agree(k as nat, keys@, g1.km, g2.km);
        },
        V::Threshold(_, s, ws) => {
            lemma_agree_split(g1.km, g2.km, rk_e(*s), rk_ws(ws@));
            lemma_keys_e(*s, g1, g2);
            lemma_keys_ws(ws@, g1, g2);
        },
        V::And(l, r) => {
            lemma_agree_split(g1.km, g2.km, rk_v(*l), rk_v(*r));
            lemma_keys_v(*l, g1, g2);
            lemma_keys_v(*r, g1, g2);
        },
        V::ParallelOr(l, r) => {
            lemma_agree_split(g1.km, g2.km, rk_e(*l), rk_w(*r));
            lemma_keys_e(*l, g1, g2);
            lemma_keys_w(*r, g1, g2);
        },
        V::SwitchOr(l, r) => {
            lemma_agree_split(g1.km, g2.km, rk_v(*l), rk_v(*r));
            lemma_keys_v(*l, g1, g2);
            lemma_keys_v(*r, g1, g2);
        },
        V::SwitchOrT(l, r) => {
            lemma_agree_split(g1.km, g2.km, rk_t(*l), rk_t(*r));
            lemma_keys_t(*l, g1, g2);
            lemma_keys_t(*r, g1, g2);
        },
        V::CascadeOr(l, r) => {
            lemma_agree_split(g1.km, g2.km, rk_e(*l), rk_v(*r));
            lemma_keys_e(*l, g1, g2);
            lemma_keys_v(*r, g1, g2);
        },
        _ => {},
    }
}

proof fn lemma_keys_t(x: T, g1: Ingredients, g2: Ingredients)
    requires
        no_pkh_t(x),
        same_but_sigs(g1, g2),
        agree(g1.km, g2.km, rk_t(x)),
    ensures
        sat_t(x, g1) == sat_t(x, g2),
    decreases x,
{
    match x {
        T::And(l, r) => {
            lemma_agree_split(g1.km, g2.km, rk_v(*l), rk_t(*r));
            lemma_keys_v(*l, g1, g2);
            lemma_keys_t(*r, g1, g2);
        },
        T::SwitchOr(l, r) => {
            lemma_agree_split(g1.km, g2.km, rk_t(*l), rk_t(*r));
            lemma_keys_t(*l, g1, g2);
            lemma_keys_t(*r, g1, g2);
        },
        T::CascadeOr(l, r) => {
            lemma_agree_split(g1.km, g2.km, rk_e(*l), rk_t(*r));
            lemma_keys_e(*l, g1, g2);
            lemma_keys_t(*r, g1, g2);
        },
        T::CastE(e) => {
            lemma_keys_e(*e, g1, g2);
        },
        T::CastF(f) => {
            lemma_keys_f(*f, g1, g2);
        },
        _ => {},
    }
}

/// Satisfaction consults the signatures of the keys that `required_keys`
/// returns and of no others: two key maps that hold the same signatures for
/// those keys give the same outcome. This holds of trees that check no key
/// through its hash, whose keys only the pkh map names.
pub proof fn lemma_required_keys_cover(t: T, g1: Ingredients, g2: Ingredients)
    requires
        no_pkh_t(t),
        same_but_sigs(g1, g2),
        agree(g1.km, g2.km, rk_t(t)),
    ensures
        sat_t(t, g1) == sat_t(t, g2),
{
    lemma_keys_t(t, g1, g2);
}


/// An error names an ingredient that is indeed missing: a signature, a public
/// key or a preimage that the maps do not hold, or a locktime that the age
/// does not reach; or it says in general that the script could not be satisfied.
pub open spec fn names_missing(e: ErrorView, g: Ingredients) -> bool {
    match e {
        ErrorView::MissingSig(pk) => find_sig(g.km, pk) is None,
        ErrorView::MissingPubkey(h) => find_pk(g.pm, h) is None,
        ErrorView::MissingHash(h) => find_pre(g.hm, h) is None,
        ErrorView::LocktimeNotMet(n) => g.age < n,
        ErrorView::CouldNotSatisfy => true,
        _ => false,
    }
}

/// An outcome that, if it is an error, names a missing ingredient.
pub open spec fn sound(r: SatResult, g: Ingredients) -> bool {
    r is Err ==> names_missing(r->Err_0, g)
}

/// Every outcome of the sequence is sound.
pub open spec fn all_sound(s: Seq<SatResult>, g: Ingredients) -> bool {
    forall|i: int| 0 <= i < s.len() ==> sound(#[trigger] s[i], g)
}

proof fn lemma_emit_sound(k: nat, s: Seq<SatResult>, d: Seq<SatResult>, m: int, g: Ingredients)
    requires
        all_sound(s, g),
        all_sound(d, g),
        m <= s.len(),
        m <= d.len(),
    ensures
        sound(emit(k, s, d, m), g),
    decreases m,
{
    if m > 0 {
        lemma_emit_sound(k, s, d, m - 1, g);
        assert(sound(s[m - 1], g));
        assert(sound(d[m - 1], g));
    }
}

proof fn lemma_concat_all_sound(s: Seq<SatResult>, g: Ingredients)
    requires
        all_sound(s, g),
    ensures
        sound(concat_all(s), g),
    decreases s.len(),
{
    if s.len() > 0 {
        assert(all_sound(s.drop_last(), g)) by {
            assert forall|i: int| 0 <= i < s.len() - 1 implies sound(#[trigger] s.drop_last()[i], g) by {
                assert(s.drop_last()[i] == s[i]);
            }
        }
        lemma_concat_all_sound(s.drop_last(), g);
        assert(sound(s[s.len() - 1], g));
    }
}

proof fn lemma_thresh_sound(k: usize, s: Seq<SatResult>, d: Seq<SatResult>, g: Ingredients)
    requires
        all_sound(s, g),
        all_sound(d, g),
        s.len() == d.len(),
    ensures
        sound(thresh(k, s, d), g),
{
    lemma_emit_sound(k as nat, s, d, s.len() as int, g);
}

proof fn lemma_sat_sound_ws(ws: Seq<W>, g: Ingredients)
    ensures
        all_sound(sat_ws(ws, g), g),
        sat_ws(ws, g).len() == ws.len(),
    decreases ws,
{
    if ws.len() > 0 {
        lemma_sat_sound_ws(ws.drop_last(), g);
        lemma_sat_sound_w(ws.last(), g);
    }
}

proof fn lemma_dissat_sound_ws(ws: Seq<W>, g: Ingredients)
    ensures
        all_sound(dissat_ws(ws, g.pm), g),
        dissat_ws(ws, g.pm).len() == ws.len(),
    decreases ws,
{
    if ws.len() > 0 {
        lemma_dissat_sound_ws(ws.drop_last(), g);
        lemma_dissat_sound_w(ws.last(), g);
    }
}

proof fn lemma_sat_sound_e(x: E, g: Ingredients)
    ensures
        sound(sat_e(x, g), g),
    decreases x,
{
    match x {
        E::Threshold(k, s, ws) => {
            lemma_sat_sound_e(*s, g);
            lemma_dissat_sound_e(*s, g);
            lemma_sat_sound_ws(ws@, g);
            lemma_dissat_sound_ws(ws@, g);
            lemma_thresh_sound(k, seq![sat_e(*s, g)] + sat_ws(ws@, g), seq![dissat_e(*s, g.pm)] + dissat_ws(ws@, g.pm), g);
        },
        E::ParallelAnd(l, r) => {
            lemma_sat_sound_e(*l, g);
            lemma_sat_sound_w(*r, g);
        },
        E::CascadeAnd(l, r) => {
            lemma_sat_sound_e(*l, g);
            lemma_sat_sound_f(*r, g);
        },
        E::ParallelOr(l, r) => {
            lemma_sat_sound_e(*l, g);
            lemma_sat_sound_w(*r, g);
            lemma_dissat_sound_e(*l, g);
            lemma_dissat_sound_w(*r, g);
        },
        E::CascadeOr(l, r) => {
            lemma_sat_sound_e(*l, g);
            lemma_sat_sound_e(*r, g);
            lemma_dissat_sound_e(*l, g);
        },
        E::CastF(f) => {
            lemma_sat_sound_f(*f, g);
        },
        _ => {},
    }
}

proof fn lemma_sat_sound_w(x: W, g: Ingredients)
    ensures
        sound(sat_w(x, g), g),
    decreases x,
{
    match x {
        W::CastE(e) => {
            lemma_sat_sound_e(*e, g);
        },
        _ => {},
    }
}

proof fn lemma_sat_sound_f(x: F, g: Ingredients)
    ensures
        sound(sat_f(x, g), g),
    decreases x,
{
    match x {
        F::Threshold(k, s, ws) => {
            lemma_sat_sound_e(*s, g);
            lemma_dissat_sound_e(*s, g);
            lemma_sat_sound_ws(ws@, g);
            lemma_dissat_sound_ws(ws@, g);
            lemma_thresh_sound(k, seq![sat_e(*s, g)] + sat_ws(ws@, g), seq![dissat_e(*s, g.pm)] + dissat_ws(ws@, g.pm), g);
        },
        F::And(l, r) => {
            lemma_sat_sound_v(*l, g);
            lemma_sat_sound_f(*r, g);
        },
        F::ParallelOr(l, r) => {
            lemma_sat_sound_e(*l, g);
            lemma_sat_sound_w(*r, g);
            lemma_dissat_sound_e(*l, g);
            lemma_dissat_sound_w(*r, g);
        },
        F::SwitchOr(l, r) => {
            lemma_sat_sound_f(*l, g);
            lemma_sat_sound_f(*r, g);
        },
        F::SwitchOrV(l, r) => {
            lemma_sat_sound_v(*l, g);
            lemma_sat_sound_v(*r, g);
        },
        F::CascadeOr(l, r) => {
            lemma_sat_sound_e(*l, g);
            lemma_sat_sound_f(*r, g);
            lemma_dissat_sound_e(*l, g);
        },
        F::CascadeOrV(l, r) => {
            lemma_sat_sound_e(*l, g);
            lemma_sat_sound_v(*r, g);
            lemma_dissat_sound_e(*l, g);
        },
        _ => {},
    }
}

proof fn lemma_sat_sound_v(x: V, g: Ingredients)
    ensures
        sound(sat_v(x, g), g),
    decreases x,
{
    match x {
        V::Threshold(k, s, ws) => {
            lemma_sat_sound_e(*s, g);
            lemma_dissat_sound_e(*s, g);
            lemma_sat_sound_ws(ws@, g);
            lemma_dissat_sound_ws(ws@, g);
            lemma_thresh_sound(k, seq![sat_e(*s, g)] + sat_ws(ws@, g), seq![dissat_e(*s, g.pm)] + dissat_ws(ws@, g.pm), g);
        },
        V::And(l, r) => {
            lemma_sat_sound_v(*l, g);
            lemma_sat_sound_v(*r, g);
        },
        V::ParallelOr(l, r) => {
            lemma_sat_sound_e(*l, g);
            lemma_sat_sound_w(*r, g);
            lemma_dissat_sound_e(*l, g);
            lemma_dissat_sound_w(*r, g);
        },
        V::SwitchOr(l, r) => {
            lemma_sat_sound_v(*l, g);
            lemma_sat_sound_v(*r, g);
        },
        V::SwitchOrT(l, r) => {
            lemma_sat_sound_t(*l, g);
            lemma_sat_sound_t(*r, g);
        },
        V::CascadeOr(l, r) => {
            lemma_sat_sound_e(*l, g);
            lemma_sat_sound_v(*r, g);
            lemma_dissat_sound_e(*l, g);
        },
        _ => {},
    }
}

proof fn lemma_sat_sound_t(x: T, g: Ingredients)
    ensures
        sound(sat_t(x, g), g),
    decreases x,
{
    match x {
        T::And(l, r) => {
            lemma_sat_sound_v(*l, g);
            lemma_sat_sound_t(*r, g);
        },
        T::SwitchOr(l, r) => {
            lemma_sat_sound_t(*l, g);
            lemma_sat_sound_t(*r, g);
        },
        T::CascadeOr(l, r) => {
            lemma_sat_sound_e(*l, g);
            lemma_sat_sound_t(*r, g);
            lemma_dissat_sound_e(*l, g);
        },
        T::CastE(e) => {
            lemma_sat_sound_e(*e, g);
        },
        T::CastF(f) => {
            lemma_sat_sound_f(*f, g);
        },
        _ => {},
    }
}

proof fn lemma_dissat_sound_e(x: E, g: Ingredients)
    ensures
        sound(dissat_e(x, g.pm), g),
    decreases x,
{
    match x {
        E::Threshold(_, s, ws) => {
            lemma_dissat_sound_e(*s, g);
            lemma_dissat_sound_ws(ws@, g);
            let all = seq![dissat_e(*s, g.pm)] + dissat_ws(ws@, g.pm);
            assert(all_sound(all, g)) by {
                assert forall|i: int| 0 <= i < all.len() implies sound(#[trigger] all[i], g) by {
                    if i > 0 {
                        assert(all[i] == dissat_ws(ws@, g.pm)[i - 1]);
                    }
                }
            }
            lemma_concat_all_sound(all, g);
        },
        E::ParallelAnd(l, r) => {
            lemma_dissat_sound_e(*l, g);
            lemma_dissat_sound_w(*r, g);
        },
        E::CascadeAnd(l, _) => {
            lemma_dissat_sound_e(*l, g);
        },
        E::ParallelOr(l, r) => {
            lemma_dissat_sound_e(*l, g);
            lemma_dissat_sound_w(*r, g);
        },
        E::CascadeOr(l, r) => {
            lemma_dissat_sound_e(*l, g);
            lemma_dissat_sound_e(*r, g);
        },
        _ => {},
    }
}

proof fn lemma_dissat_sound_w(x: W, g: Ingredients)
    ensures
        sound(dissat_w(x, g.pm), g),
    decreases x,
{
    match x {
        W::CastE(e) => {
            lemma_dissat_sound_e(*e, g);
        },
        _ => {},
    }
}

/// Whenever satisfaction fails, its error names an ingredient that is indeed
/// missing (a signature, a public key, a preimage, or a locktime that the age
/// does not reach), or it is the general `CouldNotSatisfy`.
pub proof fn lemma_satisfy_error_names_missing(t: T, g: Ingredients)
    ensures
        sound(sat_t(t, g), g),
{
    lemma_sat_sound_t(t, g);
}


/// No W expression of the list holds a disjunction, and its thresholds ask for at least one.
pub open spec fn simple_ws(ws: Seq<W>) -> bool
    decreases ws,
{
    if ws.len() == 0 {
        true
    } else {
        simple_ws(ws.drop_last()) && simple_w(ws.last())
    }
}

/// The E expression holds no disjunction (no Or or Switch fragment), and each
/// of its thresholds asks for at least one child.
pub open spec fn simple_e(x: E) -> bool
    decreases x,
{
    match x {
        E::Threshold(k, s, ws) => k >= 1 && simple_e(*s) && simple_ws(ws@),
        E::ParallelAnd(l, r) => simple_e(*l) && simple_w(*r),
        E::CascadeAnd(l, r) => simple_e(*l) && simple_f(*r),
        E::ParallelOr(_, _) => false,
        E::CascadeOr(_, _) => false,
        E::CastF(f) => simple_f(*f),
        _ => true,
    }
}

/// The W expression holds no disjunction (no Or or Switch fragment), and each
/// of its thresholds asks for at least one child.
pub open spec fn simple_w(x: W) -> bool
    decreases x,
{
    match x {
        W::CastE(e) => simple_e(*e),
        _ => true,
    }
}

/// The F expression holds no disjunction (no Or or Switch fragment), and each
/// of its thresholds asks for at least one child.
pub open spec fn simple_f(x: F) -> bool
    decreases x,
{
    match x {
        F::Threshold(k, s, ws) => k >= 1 && simple_e(*s) && simple_ws(ws@),
        F::And(l, r) => simple_v(*l) && simple_f(*r),
        F::ParallelOr(_, _) => false,
        F::SwitchOr(_, _) => false,
        F::SwitchOrV(_, _) => false,
        F::CascadeOr(_, _) => false,
        F::CascadeOrV(_, _) => false,
        _ => true,
    }
}

/// The V expression holds no disjunction (no Or or Switch fragment), and each
/// of its thresholds asks for at least one child.
pub open spec fn simple_v(x: V) -> bool
    decreases x,
{
    match x {
        V::Threshold(k, s, ws) => k >= 1 && simple_e(*s) && simple_ws(ws@),
        V::And(l, r) => simple_v(*l) && simple_v(*r),
        V::ParallelOr(_, _) => false,
        V::SwitchOr(_, _) => false,
        V::SwitchOrT(_, _) => false,
        V::CascadeOr(_, _) => false,
        _ => true,
    }
}

/// The T expression holds no disjunction (no Or or Switch fragment), and each
/// of its thresholds asks for at least one child.
pub open spec fn simple_t(x: T) -> bool
    decreases x,
{
    match x {
        T::And(l, r) => simple_v(*l) && simple_t(*r),
        T::SwitchOr(_, _) => false,
        T::CascadeOr(_, _) => false,
        T::CastE(e) => simple_e(*e),
        T::CastF(f) => simple_f(*f),
        _ => true,
    }
}

/// The same ingredients at a later age.
pub open spec fn later(g1: Ingredients, g2: Ingredients) -> bool {
    g1.km == g2.km && g1.pm == g2.pm && g1.hm == g2.hm && g1.age <= g2.age
}

/// The witness that child `i` of a threshold contributes.
pub open spec fn pick(k: nat, s: Seq<SatResult>, d: Seq<SatResult>, i: int) -> SatResult {
    if selected(k, s, i) {
        s[i]
    } else {
        d[i]
    }
}

proof fn lemma_emit_ok(k: nat, s: Seq<SatResult>, d: Seq<SatResult>, m: int)
    requires
        0 <= m,
    ensures
        emit(k, s, d, m) is Ok <==> forall|i: int| 0 <= i < m ==> (#[trigger] pick(k, s, d, i)) is Ok,
    decreases m,
{
    if m > 0 {
        lemma_emit_ok(k, s, d, m - 1);
        if emit(k, s, d, m) is Ok {
            assert forall|i: int| 0 <= i < m implies (#[trigger] pick(k, s, d, i)) is Ok by {
                if i < m - 1 {
                    assert(pick(k, s, d, i) is Ok);
                }
            }
        }
        if forall|i: int| 0 <= i < m ==> (#[trigger] pick(k, s, d, i)) is Ok {
            assert(pick(k, s, d, m - 1) is Ok);
            assert forall|i: int| 0 <= i < m - 1 implies (#[trigger] pick(k, s, d, i)) is Ok by {
                assert(pick(k, s, d, i) is Ok);
            }
        }
    }
}

proof fn lemma_count_mono(s1: Seq<SatResult>, s2: Seq<SatResult>)
    requires
        s1.len() == s2.len(),
        forall|i: int| 0 <= i < s1.len() ==> (#[trigger] s1[i]) is Ok ==> s2[i] is Ok,
    ensures
        count_ok(s1) <= count_ok(s2),
    decreases s1.len(),
{
    if s1.len() > 0 {
        assert forall|i: int| 0 <= i < s1.len() - 1 && (#[trigger] s1.drop_last()[i]) is Ok implies s2.drop_last()[i] is Ok by {
            assert(s1.drop_last()[i] == s1[i]);
            assert(s2.drop_last()[i] == s2[i]);
        }
        lemma_count_mono(s1.drop_last(), s2.drop_last());
        assert(s1.last() == s1[s1.len() - 1]);
    }
}

/// A threshold that is satisfied stays satisfied when every child that was
/// satisfied stays so, and every child satisfied later can be dissatisfied.
proof fn lemma_thresh_mono(k: usize, s1: Seq<SatResult>, s2: Seq<SatResult>, d: Seq<SatResult>)
    requires
        k >= 1,
        s1.len() == s2.len(),
        d.len() == s1.len(),
        thresh(k, s1, d) is Ok,
        forall|i: int| 0 <= i < s1.len() ==> (#[trigger] s1[i]) is Ok ==> s2[i] is Ok,
        forall|i: int| 0 <= i < s2.len() ==> (#[trigger] s2[i]) is Ok ==> d[i] is Ok,
    ensures
        thresh(k, s2, d) is Ok,
{
    lemma_count_mono(s1, s2);
    let n = s1.len() as int;
    lemma_emit_ok(k as nat, s1, d, n);
    lemma_emit_ok(k as nat, s2, d, n);
    assert forall|i: int| 0 <= i < n implies (#[trigger] pick(k as nat, s2, d, i)) is Ok by {
        if !selected(k as nat, s2, i) && s2[i] is Err {
            assert(s1[i] is Err);
            assert(pick(k as nat, s1, d, i) is Ok);
        }
    }
}

/// Every child of a threshold that satisfies can also be dissatisfied.
proof fn lemma_thresh_dissat(k: usize, s: Seq<SatResult>, d: Seq<SatResult>)
    requires
        k >= 1,
        d.len() == s.len(),
        thresh(k, s, d) is Ok,
        forall|i: int| 0 <= i < s.len() ==> (#[trigger] s[i]) is Ok ==> d[i] is Ok,
    ensures
        forall|i: int| 0 <= i < d.len() ==> (#[trigger] d[i]) is Ok,
{
    lemma_emit_ok(k as nat, s, d, s.len() as int);
    assert forall|i: int| 0 <= i < d.len() implies (#[trigger] d[i]) is Ok by {
        assert(pick(k as nat, s, d, i) is Ok);
    }
}

proof fn lemma_concat_all_ok(s: Seq<SatResult>)
    requires
        forall|i: int| 0 <= i < s.len() ==> (#[trigger] s[i]) is Ok,
    ensures
        concat_all(s) is Ok,
    decreases s.len(),
{
    if s.len() > 0 {
        assert forall|i: int| 0 <= i < s.len() - 1 implies (#[trigger] s.drop_last()[i]) is Ok by {
            assert(s.drop_last()[i] == s[i]);
        }
        lemma_concat_all_ok(s.drop_last());
        assert(s[s.len() - 1] is Ok);
    }
}

proof fn lemma_ws_facts(ws: Seq<W>, g1: Ingredients, g2: Ingredients)
    requires
        simple_ws(ws),
        later(g1, g2),
    ensures
        sat_ws(ws, g1).len() == ws.len(),
        sat_ws(ws, g2).len() == ws.len(),
        dissat_ws(ws, g1.pm).len() == ws.len(),
        forall|i: int| 0 <= i < ws.len() ==> (#[trigger] sat_ws(ws, g1)[i]) is Ok ==> sat_ws(ws, g2)[i] is Ok,
        forall|i: int| 0 <= i < ws.len() ==> (#[trigger] sat_ws(ws, g2)[i]) is Ok ==> dissat_ws(ws, g1.pm)[i] is Ok,
    decreases ws, 0int,
{
    if ws.len() > 0 {
        lemma_ws_facts(ws.drop_last(), g1, g2);
        if sat_w(ws.last(), g1) is Ok {
            lemma_mono_w(ws.last(), g1, g2);
        }
        lemma_sat_dissat_w(ws.last(), g2);
        let n = ws.len() - 1;
        assert forall|i: int| 0 <= i < ws.len() && (#[trigger] sat_ws(ws, g1)[i]) is Ok implies sat_ws(ws, g2)[i] is Ok by {
            if i < n {
                assert(sat_ws(ws, g1)[i] == sat_ws(ws.drop_last(), g1)[i]);
                assert(sat_ws(ws, g2)[i] == sat_ws(ws.drop_last(), g2)[i]);
            }
        }
        assert forall|i: int| 0 <= i < ws.len() && (#[trigger] sat_ws(ws, g2)[i]) is Ok implies dissat_ws(ws, g1.pm)[i] is Ok by {
            if i < n {
                assert(sat_ws(ws, g2)[i] == sat_ws(ws.drop_last(), g2)[i]);
                assert(dissat_ws(ws, g1.pm)[i] == dissat_ws(ws.drop_last(), g1.pm)[i]);
            }
        }
    }
}

/// The facts a threshold's proof needs about its children.
proof fn lemma_thresh_children(k: usize, s: E, ws: Seq<W>, g1: Ingredients, g2: Ingredients)
    requires
        k >= 1,
        simple_e(s),
        simple_ws(ws),
        later(g1, g2),
        thresh(k, seq![sat_e(s, g1)] + sat_ws(ws, g1), seq![dissat_e(s, g1.pm)] + dissat_ws(ws, g1.pm)) is Ok,
        sat_e(s, g1) is Ok ==> sat_e(s, g2) is Ok,
        sat_e(s, g2) is Ok ==> dissat_e(s, g2.pm) is Ok,
        sat_ws(ws, g1).len() == ws.len(),
        sat_ws(ws, g2).len() == ws.len(),
        dissat_ws(ws, g1.pm).len() == ws.len(),
        forall|i: int| 0 <= i < ws.len() ==> (#[trigger] sat_ws(ws, g1)[i]) is Ok ==> sat_ws(ws, g2)[i] is Ok,
        forall|i: int| 0 <= i < ws.len() ==> (#[trigger] sat_ws(ws, g2)[i]) is Ok ==> dissat_ws(ws, g1.pm)[i] is Ok,
    ensures
        thresh(k, seq![sat_e(s, g2)] + sat_ws(ws, g2), seq![dissat_e(s, g2.pm)] + dissat_ws(ws, g2.pm)) is Ok,
{
    let s1 = seq![sat_e(s, g1)] + sat_ws(ws, g1);
    let s2 = seq![sat_e(s, g2)] + sat_ws(ws, g2);
    let d = seq![dissat_e(s, g1.pm)] + dissat_ws(ws, g1.pm);
    assert forall|i: int| 0 <= i < s1.len() && (#[trigger] s1[i]) is Ok implies s2[i] is Ok by {
        if i > 0 {
            assert(s1[i] == sat_ws(ws, g1)[i - 1]);
            assert(s2[i] == sat_ws(ws, g2)[i - 1]);
        }
    }
    assert forall|i: int| 0 <= i < s2.len() && (#[trigger] s2[i]) is Ok implies d[i] is Ok by {
        if i > 0 {
            assert(s2[i] == sat_ws(ws, g2)[i - 1]);
            assert(d[i] == dissat_ws(ws, g1.pm)[i - 1]);
        }
    }
    lemma_thresh_mono(k, s1, s2, d);
}

proof fn lemma_mono_e(x: E, g1: Ingredients, g2: Ingredients)
    requires
        simple_e(x),
        later(g1, g2),
        sat_e(x, g1) is Ok,
    ensures
        sat_e(x, g2) is Ok,
    decreases x, 1int,
{
    match x {
        E::Threshold(k, s, ws) => {
            if sat_e(*s, g1) is Ok {
                lemma_mono_e(*s, g1, g2);
            }
            lemma_sat_dissat_e(*s, g2);
            lemma_ws_facts(ws@, g1, g2);
            lemma_thresh_children(k, *s, ws@, g1, g2);
        },
        E::ParallelAnd(l, r) => {
            lemma_mono_e(*l, g1, g2);
            lemma_mono_w(*r, g1, g2);
        },
        E::CascadeAnd(l, r) => {
            lemma_mono_e(*l, g1, g2);
            lemma_mono_f(*r, g1, g2);
        },
        E::CastF(f) => {
            lemma_mono_f(*f, g1, g2);
        },
        _ => {},
    }
}

proof fn lemma_mono_w(x: W, g1: Ingredients, g2: Ingredients)
    requires
        simple_w(x),
        later(g1, g2),
        sat_w(x, g1) is Ok,
    ensures
        sat_w(x, g2) is Ok,
    decreases x, 1int,
{
    match x {
        W::CastE(e) => {
            lemma_mono_e(*e, g1, g2);
        },
        _ => {},
    }
}

proof fn lemma_mono_f(x: F, g1: Ingredients, g2: Ingredients)
    requires
        simple_f(x),
        later(g1, g2),
        sat_f(x, g1) is Ok,
    ensures
        sat_f(x, g2) is Ok,
    decreases x, 1int,
{
    match x {
        F::Threshold(k, s, ws) => {
            if sat_e(*s, g1) is Ok {
                lemma_mono_e(*s, g1, g2);
            }
            lemma_sat_dissat_e(*s, g2);
            lemma_ws_facts(ws@, g1, g2);
            lemma_thresh_children(k, *s, ws@, g1, g2);
        },
        F::And(l, r) => {
            lemma_mono_v(*l, g1, g2);
            lemma_mono_f(*r, g1, g2);
        },
        _ => {},
    }
}

proof fn lemma_mono_v(x: V, g1: Ingredients, g2: Ingredients)
    requires
        simple_v(x),
        later(g1, g2),
        sat_v(x, g1) is Ok,
    ensures
        sat_v(x, g2) is Ok,
    decreases x, 1int,
{
    match x {
        V::Threshold(k, s, ws) => {
            if sat_e(*s, g1) is Ok {
                lemma_mono_e(*s, g1, g2);
            }
            lemma_sat_dissat_e(*s, g2);
            lemma_ws_facts(ws@, g1, g2);
            lemma_thresh_children(k, *s, ws@, g1, g2);
        },
        V::And(l, r) => {
            lemma_mono_v(*l, g1, g2);
            lemma_mono_v(*r, g1, g2);
        },
        _ => {},
    }
}

proof fn lemma_mono_t(x: T, g1: Ingredients, g2: Ingredients)
    requires
        simple_t(x),
        later(g1, g2),
        sat_t(x, g1) is Ok,
    ensures
        sat_t(x, g2) is Ok,
    decreases x, 1int,
{
    match x {
        T::And(l, r) => {
            lemma_mono_v(*l, g1, g2);
            lemma_mono_t(*r, g1, g2);
        },
        T::CastE(e) => {
            lemma_mono_e(*e, g1, g2);
        },
        T::CastF(f) => {
            lemma_mono_f(*f, g1, g2);
        },
        _ => {},
    }
}

proof fn lemma_sat_dissat_ws(ws: Seq<W>, g: Ingredients)
    requires
        simple_ws(ws),
    ensures
        sat_ws(ws, g).len() == ws.len(),
        dissat_ws(ws, g.pm).len() == ws.len(),
        forall|i: int| 0 <= i < ws.len() ==> (#[trigger] sat_ws(ws, g)[i]) is Ok ==> dissat_ws(ws, g.pm)[i] is Ok,
    decreases ws, 0int,
{
    if ws.len() > 0 {
        lemma_sat_dissat_ws(ws.drop_last(), g);
        lemma_sat_dissat_w(ws.last(), g);
        assert forall|i: int| 0 <= i < ws.len() && (#[trigger] sat_ws(ws, g)[i]) is Ok implies dissat_ws(ws, g.pm)[i] is Ok by {
            if i < ws.len() - 1 {
                assert(sat_ws(ws, g)[i] == sat_ws(ws.drop_last(), g)[i]);
                assert(dissat_ws(ws, g.pm)[i] == dissat_ws(ws.drop_last(), g.pm)[i]);
            }
        }
    }
}

/// A satisfiable E expression without disjunctions can also be dissatisfied.
proof fn lemma_sat_dissat_e(x: E, g: Ingredients)
    requires
        simple_e(x),
    ensures
        sat_e(x, g) is Ok ==> dissat_e(x, g.pm) is Ok,
    decreases x, 1int,
{
    if sat_e(x, g) is Ok {
        match x {
            E::Threshold(k, s, ws) => {
                lemma_sat_dissat_e(*s, g);
                lemma_sat_dissat_ws(ws@, g);
                let sv = seq![sat_e(*s, g)] + sat_ws(ws@, g);
                let d = seq![dissat_e(*s, g.pm)] + dissat_ws(ws@, g.pm);
                assert forall|i: int| 0 <= i < sv.len() && (#[trigger] sv[i]) is Ok implies d[i] is Ok by {
                    if i > 0 {
                        assert(sv[i] == sat_ws(ws@, g)[i - 1]);
                        assert(d[i] == dissat_ws(ws@, g.pm)[i - 1]);
                    }
                }
                lemma_thresh_dissat(k, sv, d);
                lemma_concat_all_ok(d);
            },
            E::ParallelAnd(l, r) => {
                lemma_sat_dissat_e(*l, g);
                lemma_sat_dissat_w(*r, g);
            },
            E::CascadeAnd(l, _) => {
                lemma_sat_dissat_e(*l, g);
            },
            _ => {},
        }
    }
}

/// A satisfiable W expression without disjunctions can also be dissatisfied.
proof fn lemma_sat_dissat_w(x: W, g: Ingredients)
    requires
        simple_w(x),
    ensures
        sat_w(x, g) is Ok ==> dissat_w(x, g.pm) is Ok,
    decreases x, 1int,
{
    match x {
        W::CastE(e) => lemma_sat_dissat_e(*e, g),
        _ => {},
    }
}

/// A tree without disjunctions that can be satisfied at some age can be
/// satisfied at every later age, with the same signatures, keys and preimages.
pub proof fn lemma_csv_monotone(t: T, g1: Ingredients, g2: Ingredients)
    requires
        simple_t(t),
        later(g1, g2),
        sat_t(t, g1) is Ok,
    ensures
        sat_t(t, g2) is Ok,
{
    lemma_mono_t(t, g1, g2);
}


/// The key map holds a signature for every key of the list.
pub open spec fn all_signed(km: Seq<(PublicKey, Vec<u8>)>, keys: Seq<PublicKey>) -> bool {
    forall|i: int| 0 <= i < keys.len() ==> find_sig(km, #[trigger] keys[i]) is Some
}

/// Every ingredient that any W expression of the list may ask for is at hand.
pub open spec fn complete_ws(ws: Seq<W>, g: Ingredients) -> bool
    decreases ws,
{
    if ws.len() == 0 {
        true
    } else {
        complete_ws(ws.drop_last(), g) && complete_w(ws.last(), g)
    }
}

/// Every ingredient that any branch of the E expression may ask for is at
/// hand (each signature, public key, preimage, and an age that meets each
/// locktime), and each multisig and threshold asks for no more than it lists.
pub open spec fn complete_e(x: E, g: Ingredients) -> bool
    decreases x,
{
    match x {
        E::CheckSig(pk) => find_sig(g.km, pk) is Some,
        E::CheckSigHash(h) => find_pk(g.pm, h) is Some && find_sig(g.km, find_pk(g.pm, h)->Some_0) is Some,
        E::CheckSigHashF(h) => find_pk(g.pm, h) is Some && find_sig(g.km, find_pk(g.pm, h)->Some_0) is Some,
        E::CheckMultiSig(k, keys) => k <= keys@.len() && all_signed(g.km, keys@),
        E::CheckMultiSigF(k, keys) => k <= keys@.len() && all_signed(g.km, keys@),
        E::HashEqual(h) => find_pre(g.hm, h) is Some,
        E::Threshold(k, s, ws) => k <= ws@.len() + 1 && complete_e(*s, g) && complete_ws(ws@, g),
        E::ParallelAnd(l, r) => complete_e(*l, g) && complete_w(*r, g),
        E::CascadeAnd(l, r) => complete_e(*l, g) && complete_f(*r, g),
        E::ParallelOr(l, r) => complete_e(*l, g) && complete_w(*r, g),
        E::CascadeOr(l, r) => complete_e(*l, g) && complete_e(*r, g),
        E::CastF(f) => complete_f(*f, g),
    }
}

/// Every ingredient that any branch of the W expression may ask for is at
/// hand (each signature, public key, preimage, and an age that meets each
/// locktime), and each multisig and threshold asks for no more than it lists.
pub open spec fn complete_w(x: W, g: Ingredients) -> bool
    decreases x,
{
    match x {
        W::CheckSig(pk) => find_sig(g.km, pk) is Some,
        W::HashEqual(h) => find_pre(g.hm, h) is Some,
        W::Csv(n) => n <= g.age,
        W::CastE(e) => complete_e(*e, g),
    }
}

/// Every ingredient that any branch of the F expression may ask for is at
/// hand (each signature, public key, preimage, and an age that meets each
/// locktime), and each multisig and threshold asks for no more than it lists.
pub open spec fn complete_f(x: F, g: Ingredients) -> bool
    decreases x,
{
    match x {
        F::CheckSig(pk) => find_sig(g.km, pk) is Some,
        F::CheckMultiSig(k, keys) => k <= keys@.len() && all_signed(g.km, keys@),
        F::CheckSigHash(h) => find_pk(g.pm, h) is Some && find_sig(g.km, find_pk(g.pm, h)->Some_0) is Some,
        F::Csv(n) => n <= g.age,
        F::HashEqual(h) => find_pre(g.hm, h) is Some,
        F::Threshold(k, s, ws) => k <= ws@.len() + 1 && complete_e(*s, g) && complete_ws(ws@, g),
        F::And(l, r) => complete_v(*l, g) && complete_f(*r, g),
        F::ParallelOr(l, r) => complete_e(*l, g) && complete_w(*r, g),
        F::SwitchOr(l, r) => complete_f(*l, g) && complete_f(*r, g),
        F::SwitchOrV(l, r) => complete_v(*l, g) && complete_v(*r, g),
        F::CascadeOr(l, r) => complete_e(*l, g) && complete_f(*r, g),
        F::CascadeOrV(l, r) => complete_e(*l, g) && complete_v(*r, g),
    }
}

/// Every ingredient that any branch of the V expression may ask for is at
/// hand (each signature, public key, preimage, and an age that meets each
/// locktime), and each multisig and threshold asks for no more than it lists.
pub open spec fn complete_v(x: V, g: Ingredients) -> bool
    decreases x,
{
    match x {
        V::CheckSig(pk) => find_sig(g.km, pk) is Some,
        V::CheckMultiSig(k, keys) => k <= keys@.len() && all_signed(g.km, keys@),
        V::CheckSigHash(h) => find_pk(g.pm, h) is Some && find_sig(g.km, find_pk(g.pm, h)->Some_0) is Some,
        V::Csv(n) => n <= g.age,
        V::HashEqual(h) => find_pre(g.hm, h) is Some,
        V::Threshold(k, s, ws) => k <= ws@.len() + 1 && complete_e(*s, g) && complete_ws(ws@, g),
        V::And(l, r) => complete_v(*l, g) && complete_v(*r, g),
        V::ParallelOr(l, r) => complete_e(*l, g) && complete_w(*r, g),
        V::SwitchOr(l, r) => complete_v(*l, g) && complete_v(*r, g),
        V::SwitchOrT(l, r) => complete_t(*l, g) && complete_t(*r, g),
        V::CascadeOr(l, r) => complete_e(*l, g) && complete_v(*r, g),
    }
}

/// Every ingredient that any branch of the T expression may ask for is at
/// hand (each signature, public key, preimage, and an age that meets each
/// locktime), and each multisig and threshold asks for no more than it lists.
pub open spec fn complete_t(x: T, g: Ingredients) -> bool
    decreases x,
{
    match x {
        T::HashEqual(h) => find_pre(g.hm, h) is Some,
        T::And(l, r) => complete_v(*l, g) && complete_t(*r, g),
        T::SwitchOr(l, r) => complete_t(*l, g) && complete_t(*r, g),
        T::CascadeOr(l, r) => complete_e(*l, g) && complete_t(*r, g),
        T::CastE(e) => complete_e(*e, g),
        T::CastF(f) => complete_f(*f, g),
    }
}

proof fn lemma_last_max_range(a: Seq<Seq<u8>>)
    requires
        a.len() > 0,
    ensures
        0 <= last_max(a) < a.len(),
    decreases a.len(),
{
    if a.len() > 1 {
        lemma_last_max_range(a.drop_last());
    }
}

/// With a signature for every key, a multisig collects as many as it asks for.
proof fn lemma_ms_full(k: nat, pks: Seq<PublicKey>, km: Seq<(PublicKey, Vec<u8>)>)
    requires
        all_signed(km, pks),
    ensures
        ms_collect(k, pks, km).len() == if pks.len() < k { pks.len() } else { k },
    decreases pks.len(),
{
    if pks.len() > 0 {
        assert(all_signed(km, pks.drop_last())) by {
            assert forall|i: int| 0 <= i < pks.len() - 1 implies find_sig(km, #[trigger] pks.drop_last()[i]) is Some by {
                assert(pks.drop_last()[i] == pks[i]);
            }
        }
        lemma_ms_full(k, pks.drop_last(), km);
        assert(find_sig(km, pks[pks.len() - 1]) is Some);
        let acc = ms_collect(k, pks.drop_last(), km);
        let a = acc.push(find_sig(km, pks.last())->Some_0);
        lemma_last_max_range(a);
    }
}

proof fn lemma_count_all(s: Seq<SatResult>)
    requires
        forall|i: int| 0 <= i < s.len() ==> (#[trigger] s[i]) is Ok,
    ensures
        count_ok(s) == s.len(),
    decreases s.len(),
{
    if s.len() > 0 {
        assert forall|i: int| 0 <= i < s.len() - 1 implies (#[trigger] s.drop_last()[i]) is Ok by {
            assert(s.drop_last()[i] == s[i]);
        }
        lemma_count_all(s.drop_last());
        assert(s[s.len() - 1] is Ok);
    }
}

proof fn lemma_complete_ws(ws: Seq<W>, g: Ingredients)
    requires
        complete_ws(ws, g),
    ensures
        sat_ws(ws, g).len() == ws.len(),
        dissat_ws(ws, g.pm).len() == ws.len(),
        forall|i: int| 0 <= i < ws.len() ==> (#[trigger] sat_ws(ws, g)[i]) is Ok,
        forall|i: int| 0 <= i < ws.len() ==> (#[trigger] dissat_ws(ws, g.pm)[i]) is Ok,
    decreases ws, 0int,
{
    if ws.len() > 0 {
        lemma_complete_ws(ws.drop_last(), g);
        lemma_complete_w(ws.last(), g);
        assert forall|i: int| 0 <= i < ws.len() implies (#[trigger] sat_ws(ws, g)[i]) is Ok by {
            if i < ws.len() - 1 {
                assert(sat_ws(ws, g)[i] == sat_ws(ws.drop_last(), g)[i]);
            }
        }
        assert forall|i: int| 0 <= i < ws.len() implies (#[trigger] dissat_ws(ws, g.pm)[i]) is Ok by {
            if i < ws.len() - 1 {
                assert(dissat_ws(ws, g.pm)[i] == dissat_ws(ws.drop_last(), g.pm)[i]);
            }
        }
    }
}

/// A threshold whose children all satisfy and dissatisfy is satisfied.
proof fn lemma_thresh_full(k: usize, s: Seq<SatResult>, d: Seq<SatResult>)
    requires
        k <= s.len(),
        d.len() == s.len(),
        forall|i: int| 0 <= i < s.len() ==> (#[trigger] s[i]) is Ok,
        forall|i: int| 0 <= i < d.len() ==> (#[trigger] d[i]) is Ok,
    ensures
        thresh(k, s, d) is Ok,
{
    lemma_count_all(s);
    lemma_emit_ok(k as nat, s, d, s.len() as int);
    assert forall|i: int| 0 <= i < s.len() implies (#[trigger] pick(k as nat, s, d, i)) is Ok by {
        assert(s[i] is Ok);
        assert(d[i] is Ok);
    }
}

proof fn lemma_thresh_complete(k: usize, s: E, ws: Seq<W>, g: Ingredients)
    requires
        k <= ws.len() + 1,
        sat_e(s, g) is Ok,
        dissat_e(s, g.pm) is Ok,
        sat_ws(ws, g).len() == ws.len(),
        dissat_ws(ws, g.pm).len() == ws.len(),
        forall|i: int| 0 <= i < ws.len() ==> (#[trigger] sat_ws(ws, g)[i]) is Ok,
        forall|i: int| 0 <= i < ws.len() ==> (#[trigger] dissat_ws(ws, g.pm)[i]) is Ok,
    ensures
        thresh(k, seq![sat_e(s, g)] + sat_ws(ws, g), seq![dissat_e(s, g.pm)] + dissat_ws(ws, g.pm)) is Ok,
        concat_all(seq![dissat_e(s, g.pm)] + dissat_ws(ws, g.pm)) is Ok,
{
    let sv = seq![sat_e(s, g)] + sat_ws(ws, g);
    let d = seq![dissat_e(s, g.pm)] + dissat_ws(ws, g.pm);
    assert forall|i: int| 0 <= i < sv.len() implies (#[trigger] sv[i]) is Ok by {
        if i > 0 {
            assert(sv[i] == sat_ws(ws, g)[i - 1]);
        }
    }
    assert forall|i: int| 0 <= i < d.len() implies (#[trigger] d[i]) is Ok by {
        if i > 0 {
            assert(d[i] == dissat_ws(ws, g.pm)[i - 1]);
        }
    }
    lemma_thresh_full(k, sv, d);
    lemma_concat_all_ok(d);
}

proof fn lemma_complete_e(x: E, g: Ingredients)
    requires
        complete_e(x, g),
    ensures
        sat_e(x, g) is Ok,
        dissat_e(x, g.pm) is Ok,
    decreases x, 1int,
{
    match x {
        E::CheckMultiSig(k, keys) => {
            lemma_ms_full(k as nat, keys@, g.km);
        },
        E::CheckMultiSigF(k, keys) => {
            lemma_ms_full(k as nat, keys@, g.km);
        },
        E::Threshold(k, s, ws) => {
            lemma_complete_e(*s, g);
            lemma_complete_ws(ws@, g);
            lemma_thresh_complete(k, *s, ws@, g);
        },
        E::ParallelAnd(l, r) => {
            lemma_complete_e(*l, g);
            lemma_complete_w(*r, g);
        },
        E::CascadeAnd(l, r) => {
            lemma_complete_e(*l, g);
            lemma_complete_f(*r, g);
        },
        E::ParallelOr(l, r) => {
            lemma_complete_e(*l, g);
            lemma_complete_w(*r, g);
        },
        E::CascadeOr(l, r) => {
            lemma_complete_e(*l, g);
            lemma_complete_e(*r, g);
        },
        E::CastF(f) => {
            lemma_complete_f(*f, g);
        },
        _ => {},
    }
}

proof fn lemma_complete_w(x: W, g: Ingredients)
    requires
        complete_w(x, g),
    ensures
        sat_w(x, g) is Ok,
        dissat_w(x, g.pm) is Ok,
    decreases x, 1int,
{
    match x {
        W::CastE(e) => {
            lemma_complete_e(*e, g);
        },
        _ => {},
    }
}

proof fn lemma_complete_f(x: F, g: Ingredients)
    requires
        complete_f(x, g),
    ensures
        sat_f(x, g) is Ok,
    decreases x, 1int,
{
    match x {
        F::CheckMultiSig(k, keys) => {
            lemma_ms_full(k as nat, keys@, g.km);
        },
        F::Threshold(k, s, ws) => {
            lemma_complete_e(*s, g);
            lemma_complete_ws(ws@, g);
            lemma_thresh_complete(k, *s, ws@, g);
        },
        F::And(l, r) => {
            lemma_complete_v(*l, g);
            lemma_complete_f(*r, g);
        },
        F::ParallelOr(l, r) => {
            lemma_complete_e(*l, g);
            lemma_complete_w(*r, g);
        },
        F::SwitchOr(l, r) => {
            lemma_complete_f(*l, g);
            lemma_complete_f(*r, g);
        },
        F::SwitchOrV(l, r) => {
            lemma_complete_v(*l, g);
            lemma_complete_v(*r, g);
        },
        F::CascadeOr(l, r) => {
            lemma_complete_e(*l, g);
            lemma_complete_f(*r, g);
        },
        F::CascadeOrV(l, r) => {
            lemma_complete_e(*l, g);
            lemma_complete_v(*r, g);
        },
        _ => {},
    }
}

proof fn lemma_complete_v(x: V, g: Ingredients)
    requires
        complete_v(x, g),
    ensures
        sat_v(x, g) is Ok,
    decreases x, 1int,
{
    match x {
        V::CheckMultiSig(k, keys) => {
            lemma_ms_full(k as nat, keys@, g.km);
        },
        V::Threshold(k, s, ws) => {
            lemma_complete_e(*s, g);
            lemma_complete_ws(ws@, g);
            lemma_thresh_complete(k, *s, ws@, g);
        },
        V::And(l, r) => {
            lemma_complete_v(*l, g);
            lemma_complete_v(*r, g);
        },
        V::ParallelOr(l, r) => {
            lemma_complete_e(*l, g);
            lemma_complete_w(*r, g);
        },
        V::SwitchOr(l, r) => {
            lemma_complete_v(*l, g);
            lemma_complete_v(*r, g);
        },
        V::SwitchOrT(l, r) => {
            lemma_complete_t(*l, g);
            lemma_complete_t(*r, g);
        },
        V::CascadeOr(l, r) => {
            lemma_complete_e(*l, g);
            lemma_complete_v(*r, g);
        },
        _ => {},
    }
}

proof fn lemma_complete_t(x: T, g: Ingredients)
    requires
        complete_t(x, g),
    ensures
        sat_t(x, g) is Ok,
    decreases x, 1int,
{
    match x {
        T::And(l, r) => {
            lemma_complete_v(*l, g);
            lemma_complete_t(*r, g);
        },
        T::SwitchOr(l, r) => {
            lemma_complete_t(*l, g);
            lemma_complete_t(*r, g);
        },
        T::CascadeOr(l, r) => {
            lemma_complete_e(*l, g);
            lemma_complete_t(*r, g);
        },
        T::CastE(e) => {
            lemma_complete_e(*e, g);
        },
        T::CastF(f) => {
            lemma_complete_f(*f, g);
        },
        _ => {},
    }
}

/// When every ingredient that any branch of a tree may ask for is at hand
/// (and no multisig or threshold asks for more than it lists), satisfaction
/// returns a witness.
pub proof fn lemma_satisfy_complete(t: T, g: Ingredients)
    requires
        complete_t(t, g),
    ensures
        sat_t(t, g) is Ok,
{
    lemma_complete_t(t, g);
}

} // verus!
