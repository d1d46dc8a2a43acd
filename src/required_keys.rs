//! The keys whose signatures a tree checks.

use vstd::prelude::*;

use crate::ast::{ParseTree, E, F, T, V, W};
use crate::keys::PublicKey;

verus! {

/// The keys whose signatures a list of W expressions checks.
pub open spec fn rk_ws(ws: Seq<W>) -> Seq<PublicKey>
    decreases ws,
{
    if ws.len() == 0 {
        seq![]
    } else {
        rk_ws(ws.drop_last()) + rk_w(ws.last())
    }
}

/// The keys whose signatures a E expression checks, in script order.
pub open spec fn rk_e(x: E) -> Seq<PublicKey>
    decreases x,
{
    match x {
        E::CheckSig(pk) => seq![pk],
        E::CheckSigHash(_) => seq![],
        E::CheckSigHashF(_) => seq![],
        E::CheckMultiSig(_, keys) => keys@,
        E::CheckMultiSigF(_, keys) => keys@,
        E::HashEqual(_) => seq![],
        E::Threshold(_, s, ws) => rk_e(*s) + rk_ws(ws@),
        E::ParallelAnd(l, r) => rk_e(*l) + rk_w(*r),
        E::CascadeAnd(l, r) => rk_e(*l) + rk_f(*r),
        E::ParallelOr(l, r) => rk_e(*l) + rk_w(*r),
        E::CascadeOr(l, r) => rk_e(*l) + rk_e(*r),
        E::CastF(f) => rk_f(*f),
    }
}

/// The keys whose signatures a W expression checks, in script order.
pub open spec fn rk_w(x: W) -> Seq<PublicKey>
    decreases x,
{
    match x {
        W::CheckSig(pk) => seq![pk],
        W::HashEqual(_) => seq![],
        W::Csv(_) => seq![],
        W::CastE(e) => rk_e(*e),
    }
}

/// The keys whose signatures a F expression checks, in script order.
pub open spec fn rk_f(x: F) -> Seq<PublicKey>
    decreases x,
{
    match x {
        F::CheckSig(pk) => seq![pk],
        F::CheckMultiSig(_, keys) => keys@,
        F::CheckSigHash(_) => seq![],
        F::Csv(_) => seq![],
        F::HashEqual(_) => seq![],
        F::Threshold(_, s, ws) => rk_e(*s) + rk_ws(ws@),
        F::And(l, r) => rk_v(*l) + rk_f(*r),
        F::ParallelOr(l, r) => rk_e(*l) + rk_w(*r),
        F::SwitchOr(l, r) => rk_f(*l) + rk_f(*r),
        F::SwitchOrV(l, r) => rk_v(*l) + rk_v(*r),
        F::CascadeOr(l, r) => rk_e(*l) + rk_f(*r),
        F::CascadeOrV(l, r) => rk_e(*l) + rk_v(*r),
    }
}

/// The keys whose signatures a V expression checks, in script order.
pub open spec fn rk_v(x: V) -> Seq<PublicKey>
    decreases x,
{
    match x {
        V::CheckSig(pk) => seq![pk],
        V::CheckMultiSig(_, keys) => keys@,
        V::CheckSigHash(_) => seq![],
        V::Csv(_) => seq![],
        V::HashEqual(_) => seq![],
        V::Threshold(_, s, ws) => rk_e(*s) + rk_ws(ws@),
        V::And(l, r) => rk_v(*l) + rk_v(*r),
        V::ParallelOr(l, r) => rk_e(*l) + rk_w(*r),
        V::SwitchOr(l, r) => rk_v(*l) + rk_v(*r),
        V::SwitchOrT(l, r) => rk_t(*l) + rk_t(*r),
        V::CascadeOr(l, r) => rk_e(*l) + rk_v(*r),
    }
}

/// The keys whose signatures a T expression checks, in script order.
pub open spec fn rk_t(x: T) -> Seq<PublicKey>
    decreases x,
{
    match x {
        T::HashEqual(_) => seq![],
        T::And(l, r) => rk_v(*l) + rk_t(*r),
        T::SwitchOr(l, r) => rk_t(*l) + rk_t(*r),
        T::CascadeOr(l, r) => rk_e(*l) + rk_t(*r),
        T::CastE(e) => rk_e(*e),
        T::CastF(f) => rk_f(*f),
    }
}

/// A copy of a list of keys.
fn copy_keys(keys: &Vec<PublicKey>) -> (r: Vec<PublicKey>)
    ensures
        r@ == keys@,
{
    let mut r: Vec<PublicKey> = Vec::new();
    let mut i: usize = 0;
    while i < keys.len()
        invariant
            i <= keys@.len(),
            r@ == keys@.subrange(0, i as int),
        decreases keys@.len() - i,
    {
        r.push(keys[i]);
        i = i + 1;
        assert(r@ =~= keys@.subrange(0, i as int));
    }
    assert(keys@.subrange(0, keys@.len() as int) =~= keys@);
    r
}

/// Two lists of keys, one after the other.
fn join_keys(a: Vec<PublicKey>, b: Vec<PublicKey>) -> (r: Vec<PublicKey>)
    ensures
        r@ == a@ + b@,
{
    let mut a = a;
    let mut b = b;
    a.append(&mut b);
    a
}

/// The keys of a list of W expressions.
fn ws_required_keys(ws: &Vec<W>) -> (r: Vec<PublicKey>)
    ensures
        r@ == rk_ws(ws@),
    decreases ws,
{
    let mut r: Vec<PublicKey> = Vec::new();
    let mut i: usize = 0;
    assert(rk_ws(ws@.subrange(0, 0)) =~= Seq::<PublicKey>::empty());
    while i < ws.len()
        invariant
            i <= ws@.len(),
            r@ == rk_ws(ws@.subrange(0, i as int)),
        decreases ws@.len() - i,
    {
        assert(decreases_to!(ws => ws[i as int]));
        assert(ws@.subrange(0, i + 1).drop_last() =~= ws@.subrange(0, i as int));
        r = join_keys(r, ws[i].required_keys());
        i = i + 1;
    }
    assert(ws@.subrange(0, ws@.len() as int) =~= ws@);
    r
}

impl E {
    /// Return a list of all public keys which might contribute to satisfaction
    pub fn required_keys(&self) -> (r: Vec<PublicKey>)
        ensures
            r@ == rk_e(*self),
        decreases self,
    {
        match self {
            E::CheckSig(pk) => {
                let mut v: Vec<PublicKey> = Vec::new();
                v.push(*pk);
                assert(v@ =~= seq![*pk]);
                v
            },
            E::CheckSigHash(_) => {
                let v: Vec<PublicKey> = Vec::new();
                assert(v@ =~= Seq::<PublicKey>::empty());
                v
            },
            E::CheckSigHashF(_) => {
                let v: Vec<PublicKey> = Vec::new();
                assert(v@ =~= Seq::<PublicKey>::empty());
                v
            },
            E::CheckMultiSig(_, keys) => copy_keys(keys),
            E::CheckMultiSigF(_, keys) => copy_keys(keys),
            E::HashEqual(_) => {
                let v: Vec<PublicKey> = Vec::new();
                assert(v@ =~= Seq::<PublicKey>::empty());
                v
            },
            E::Threshold(_, s, ws) => join_keys(s.required_keys(), ws_required_keys(ws)),
            E::ParallelAnd(l, r) => join_keys(l.required_keys(), r.required_keys()),
            E::CascadeAnd(l, r) => join_keys(l.required_keys(), r.required_keys()),
            E::ParallelOr(l, r) => join_keys(l.required_keys(), r.required_keys()),
            E::CascadeOr(l, r) => join_keys(l.required_keys(), r.required_keys()),
            E::CastF(f) => f.required_keys(),
        }
    }
}

impl W {
    /// Return a list of all public keys which might contribute to satisfaction
    pub fn required_keys(&self) -> (r: Vec<PublicKey>)
        ensures
            r@ == rk_w(*self),
        decreases self,
    {
        match self {
            W::CheckSig(pk) => {
                let mut v: Vec<PublicKey> = Vec::new();
                v.push(*pk);
                assert(v@ =~= seq![*pk]);
                v
            },
            W::HashEqual(_) => {
                let v: Vec<PublicKey> = Vec::new();
                assert(v@ =~= Seq::<PublicKey>::empty());
                v
            },
            W::Csv(_) => {
                let v: Vec<PublicKey> = Vec::new();
                assert(v@ =~= Seq::<PublicKey>::empty());
                v
            },
            W::CastE(e) => e.required_keys(),
        }
    }
}

impl F {
    /// Return a list of all public keys which might contribute to satisfaction
    pub fn required_keys(&self) -> (r: Vec<PublicKey>)
        ensures
            r@ == rk_f(*self),
        decreases self,
    {
        match self {
            F::CheckSig(pk) => {
                let mut v: Vec<PublicKey> = Vec::new();
                v.push(*pk);
                assert(v@ =~= seq![*pk]);
                v
            },
            F::CheckMultiSig(_, keys) => copy_keys(keys),
            F::CheckSigHash(_) => {
                let v: Vec<PublicKey> = Vec::new();
                assert(v@ =~= Seq::<PublicKey>::empty());
                v
            },
            F::Csv(_) => {
                let v: Vec<PublicKey> = Vec::new();
                assert(v@ =~= Seq::<PublicKey>::empty());
                v
            },
            F::HashEqual(_) => {
                let v: Vec<PublicKey> = Vec::new();
                assert(v@ =~= Seq::<PublicKey>::empty());
                v
            },
            F::Threshold(_, s, ws) => join_keys(s.required_keys(), ws_required_keys(ws)),
            F::And(l, r) => join_keys(l.required_keys(), r.required_keys()),
            F::ParallelOr(l, r) => join_keys(l.required_keys(), r.required_keys()),
            F::SwitchOr(l, r) => join_keys(l.required_keys(), r.required_keys()),
            F::SwitchOrV(l, r) => join_keys(l.required_keys(), r.required_keys()),
            F::CascadeOr(l, r) => join_keys(l.required_keys(), r.required_keys()),
            F::CascadeOrV(l, r) => join_keys(l.required_keys(), r.required_keys()),
        }
    }
}

impl V {
    /// Return a list of all public keys which might contribute to satisfaction
    pub fn required_keys(&self) -> (r: Vec<PublicKey>)
        ensures
            r@ == rk_v(*self),
        decreases self,
    {
        match self {
            V::CheckSig(pk) => {
                let mut v: Vec<PublicKey> = Vec::new();
                v.push(*pk);
                assert(v@ =~= seq![*pk]);
                v
            },
            V::CheckMultiSig(_, keys) => copy_keys(keys),
            V::CheckSigHash(_) => {
                let v: Vec<PublicKey> = Vec::new();
                assert(v@ =~= Seq::<PublicKey>::empty());
                v
            },
            V::Csv(_) => {
                let v: Vec<PublicKey> = Vec::new();
                assert(v@ =~= Seq::<PublicKey>::empty());
                v
            },
            V::HashEqual(_) => {
                let v: Vec<PublicKey> = Vec::new();
                assert(v@ =~= Seq::<PublicKey>::empty());
                v
            },
            V::Threshold(_, s, ws) => join_keys(s.required_keys(), ws_required_keys(ws)),
            V::And(l, r) => join_keys(l.required_keys(), r.required_keys()),
            V::ParallelOr(l, r) => join_keys(l.required_keys(), r.required_keys()),
            V::SwitchOr(l, r) => join_keys(l.required_keys(), r.required_keys()),
            V::SwitchOrT(l, r) => join_keys(l.required_keys(), r.required_keys()),
            V::CascadeOr(l, r) => join_keys(l.required_keys(), r.required_keys()),
        }
    }
}

impl T {
    /// Return a list of all public keys which might contribute to satisfaction
    pub fn required_keys(&self) -> (r: Vec<PublicKey>)
        ensures
            r@ == rk_t(*self),
        decreases self,
    {
        match self {
            T::HashEqual(_) => {
                let v: Vec<PublicKey> = Vec::new();
                assert(v@ =~= Seq::<PublicKey>::empty());
                v
            },
            T::And(l, r) => join_keys(l.required_keys(), r.required_keys()),
            T::SwitchOr(l, r) => join_keys(l.required_keys(), r.required_keys()),
            T::CascadeOr(l, r) => join_keys(l.required_keys(), r.required_keys()),
            T::CastE(e) => e.required_keys(),
            T::CastF(f) => f.required_keys(),
        }
    }
}

impl ParseTree {
    /// Return a list of all public keys which might contribute to satisfaction of the scriptpubkey
    pub fn required_keys(&self) -> (r: Vec<PublicKey>)
        ensures
            r@ == rk_t(*self.0),
    {
        self.0.required_keys()
    }
}

} // verus!
