//! The typed Miniscript syntax tree and its serialisation to tokens and bytes.

use vstd::prelude::*;

use crate::keys::{Hash160, PublicKey, Sha256dHash};
use crate::token::{flat_bytes, tokens_to_bytes, Token};

verus! {

/// Expression that may be satisfied or dissatisfied; both cases must
/// be non-malleable.
#[derive(Debug, PartialEq, Eq)]
pub enum E {
    /// `<pk> CHECKSIG`
    CheckSig(PublicKey),
    /// `DUP HASH160 <hash> EQUALVERIFY CHECKSIG`
    CheckSigHash(Hash160),
    /// `SIZE IF DUP HASH160 <hash> EQUALVERIFY CHECKSIGVERIFY 1 ENDIF`
    CheckSigHashF(Hash160),
    /// `<k> <pk...> <len(pk)> CHECKMULTISIG`
    CheckMultiSig(usize, Vec<PublicKey>),
    /// `SIZE IF <k> <pk...> <len(pk)> CHECKMULTISIGVERIFY 1 ENDIF`
    CheckMultiSigF(usize, Vec<PublicKey>),
    /// `SIZE IF SIZE 32 EQUALVERIFY SHA256 <hash> EQUALVERIFY 1 ENDIF`
    HashEqual(Sha256dHash),
    /// `<E> <W> ADD ... <W> ADD <k> EQUAL`
    Threshold(usize, Box<E>, Vec<W>),
    /// `<E> <W> BOOLAND`
    ParallelAnd(Box<E>, Box<W>),
    /// `<E> IF <F> ELSE 0 ENDIF`
    CascadeAnd(Box<E>, Box<F>),
    /// `<E> <W> BOOLOR`
    ParallelOr(Box<E>, Box<W>),
    /// `<E> IFDUP NOTIF <E> ENDIF`
    CascadeOr(Box<E>, Box<E>),
    /// `SIZE EQUALVERIFY IF <F> ELSE 0 ENDIF`
    CastF(Box<F>),
}

/// Wrapped expression, used as helper for the parallel operations above
#[derive(Debug, PartialEq, Eq)]
pub enum W {
    /// `SWAP <pk> CHECKSIG`
    CheckSig(PublicKey),
    /// `SWAP SIZE IF SIZE 32 EQUALVERIFY SHA256 <hash> EQUALVERIFY 1 ENDIF`
    HashEqual(Sha256dHash),
    /// `SWAP SIZE EQUALVERIFY IF <n> CSV ELSE 0 ENDIF`
    Csv(u32),
    /// `TOALTSTACK <E> FROMALTSTACK`
    CastE(Box<E>),
}

/// Expression that must succeed and will leave a 1 on the stack after consuming its inputs
#[derive(Debug, PartialEq, Eq)]
pub enum F {
    /// `<pk> CHECKSIGVERIFY 1`
    CheckSig(PublicKey),
    /// `<k> <pk...> <len(pk)> CHECKMULTISIGVERIFY 1`
    CheckMultiSig(usize, Vec<PublicKey>),
    /// `DUP HASH160 <hash> EQUALVERIFY CHECKSIGVERIFY 1`
    CheckSigHash(Hash160),
    /// `<n> CSV`
    Csv(u32),
    /// `SIZE 32 EQUALVERIFY SHA256 <hash> EQUALVERIFY 1`
    HashEqual(Sha256dHash),
    /// `<E> <W> ADD ... <W> ADD <k> EQUALVERIFY 1`
    Threshold(usize, Box<E>, Vec<W>),
    /// `<V> <F>`
    And(Box<V>, Box<F>),
    /// `<E> <W> BOOLOR VERIFY 1`
    ParallelOr(Box<E>, Box<W>),
    /// `SIZE EQUALVERIFY IF <F> ELSE <F> ENDIF`
    SwitchOr(Box<F>, Box<F>),
    /// `SIZE EQUALVERIFY IF <V> ELSE <V> ENDIF 1`
    SwitchOrV(Box<V>, Box<V>),
    /// `<E> IFDUP NOTIF <F> ENDIF`
    CascadeOr(Box<E>, Box<F>),
    /// `<E> NOTIF <V> ENDIF 1`
    CascadeOrV(Box<E>, Box<V>),
}

/// Expression that must succeed and will leave nothing on the stack after consuming its inputs
#[derive(Debug, PartialEq, Eq)]
pub enum V {
    /// `<pk> CHECKSIGVERIFY`
    CheckSig(PublicKey),
    /// `<k> <pk...> <len(pk)> CHECKMULTISIGVERIFY`
    CheckMultiSig(usize, Vec<PublicKey>),
    /// `DUP HASH160 <hash> EQUALVERIFY CHECKSIGVERIFY`
    CheckSigHash(Hash160),
    /// `<n> CSV DROP`
    Csv(u32),
    /// `SIZE 32 EQUALVERIFY SHA256 <hash> EQUALVERIFY`
    HashEqual(Sha256dHash),
    /// `<E> <W> ADD ... <W> ADD <k> EQUALVERIFY`
    Threshold(usize, Box<E>, Vec<W>),
    /// `<V> <V>`
    And(Box<V>, Box<V>),
    /// `<E> <W> BOOLOR VERIFY`
    ParallelOr(Box<E>, Box<W>),
    /// `SIZE EQUALVERIFY IF <V> ELSE <V> ENDIF`
    SwitchOr(Box<V>, Box<V>),
    /// `SIZE EQUALVERIFY IF <T> ELSE <T> ENDIF VERIFY`
    SwitchOrT(Box<T>, Box<T>),
    /// `<E> NOTIF <V> ENDIF`
    CascadeOr(Box<E>, Box<V>),
}

/// "Top" expression, which might succeed or not, or fail or not. Occurs only at the top of a
/// script, such that its failure will fail the entire thing even if it returns a 0.
#[derive(Debug, PartialEq, Eq)]
pub enum T {
    /// `SIZE 32 EQUALVERIFY SHA256 <hash> EQUAL`
    HashEqual(Sha256dHash),
    /// `<V> <T>`
    And(Box<V>, Box<T>),
    /// `SIZE EQUALVERIFY IF <T> ELSE <T> ENDIF`
    SwitchOr(Box<T>, Box<T>),
    /// `<E> IFDUP NOTIF <T> ENDIF`
    CascadeOr(Box<E>, Box<T>),
    /// `<E>`
    CastE(Box<E>),
    /// `<F>`
    CastF(Box<F>),
}

/// Top-level script AST type
#[derive(Debug, PartialEq, Eq)]
pub struct ParseTree(pub Box<T>);

/// The pushes of a list of keys, in list order.
pub open spec fn key_toks(pks: Seq<PublicKey>) -> Seq<Token> {
    Seq::new(pks.len(), |i: int| Token::Pubkey(pks[i]))
}

/// `<k> <pk...> <len(pk)>`
pub open spec fn multi_toks(k: usize, pks: Seq<PublicKey>) -> Seq<Token> {
    seq![Token::Number(k as u32)] + key_toks(pks) + seq![Token::Number(pks.len() as u32)]
}

/// `SIZE 32 EQUALVERIFY SHA256 <hash>`
pub open spec fn hash_toks(h: Sha256dHash) -> Seq<Token> {
    seq![Token::Size, Token::Number(32), Token::EqualVerify, Token::Sha256, Token::Sha256Hash(h)]
}

/// `DUP HASH160 <hash> EQUALVERIFY`
pub open spec fn pkh_toks(h: Hash160) -> Seq<Token> {
    seq![Token::Dup, Token::Hash160, Token::Hash160Hash(h), Token::EqualVerify]
}

/// `SIZE EQUALVERIFY IF <l> ELSE <r> ENDIF`
pub open spec fn switch_toks(l: Seq<Token>, r: Seq<Token>) -> Seq<Token> {
    seq![Token::Size, Token::EqualVerify, Token::If] + l + seq![Token::Else] + r + seq![Token::EndIf]
}

/// `<w> ADD ... <w> ADD`
pub open spec fn toks_ws(ws: Seq<W>) -> Seq<Token>
    decreases ws,
{
    if ws.len() == 0 {
        seq![]
    } else {
        toks_ws(ws.drop_last()) + toks_w(ws.last()) + seq![Token::Add]
    }
}

/// The tokens of an E expression.
pub open spec fn toks_e(e: E) -> Seq<Token>
    decreases e,
{
    match e {
        E::CheckSig(pk) => seq![Token::Pubkey(pk), Token::CheckSig],
        E::CheckSigHash(h) => pkh_toks(h) + seq![Token::CheckSig],
        E::CheckSigHashF(h) => seq![Token::Size, Token::If] + pkh_toks(h)
            + seq![Token::CheckSigVerify, Token::Number(1), Token::EndIf],
        E::CheckMultiSig(k, pks) => multi_toks(k, pks@) + seq![Token::CheckMultiSig],
        E::CheckMultiSigF(k, pks) => seq![Token::Size, Token::If] + multi_toks(k, pks@)
            + seq![Token::CheckMultiSigVerify, Token::Number(1), Token::EndIf],
        E::HashEqual(h) => seq![Token::Size, Token::If] + hash_toks(h)
            + seq![Token::EqualVerify, Token::Number(1), Token::EndIf],
        E::Threshold(k, e, ws) => toks_e(*e) + toks_ws(ws@) + seq![Token::Number(k as u32), Token::Equal],
        E::ParallelAnd(l, r) => toks_e(*l) + toks_w(*r) + seq![Token::BoolAnd],
        E::CascadeAnd(l, r) => toks_e(*l) + seq![Token::If] + toks_f(*r)
            + seq![Token::Else, Token::Number(0), Token::EndIf],
        E::ParallelOr(l, r) => toks_e(*l) + toks_w(*r) + seq![Token::BoolOr],
        E::CascadeOr(l, r) => toks_e(*l) + seq![Token::IfDup, Token::NotIf] + toks_e(*r)
            + seq![Token::EndIf],
        E::CastF(f) => seq![Token::Size, Token::EqualVerify, Token::If] + toks_f(*f)
            + seq![Token::Else, Token::Number(0), Token::EndIf],
    }
}

/// The tokens of a W expression.
pub open spec fn toks_w(w: W) -> Seq<Token>
    decreases w,
{
    match w {
        W::CheckSig(pk) => seq![Token::Swap, Token::Pubkey(pk), Token::CheckSig],
        W::HashEqual(h) => seq![Token::Swap, Token::Size, Token::If] + hash_toks(h)
            + seq![Token::EqualVerify, Token::Number(1), Token::EndIf],
        W::Csv(n) => seq![Token::Swap, Token::Size, Token::EqualVerify, Token::If, Token::Number(n),
            Token::CheckSequenceVerify, Token::Else, Token::Number(0), Token::EndIf],
        W::CastE(e) => seq![Token::ToAltStack] + toks_e(*e) + seq![Token::FromAltStack],
    }
}

/// The tokens of an F expression.
pub open spec fn toks_f(f: F) -> Seq<Token>
    decreases f,
{
    match f {
        F::CheckSig(pk) => seq![Token::Pubkey(pk), Token::CheckSigVerify, Token::Number(1)],
        F::CheckMultiSig(k, pks) => multi_toks(k, pks@)
            + seq![Token::CheckMultiSigVerify, Token::Number(1)],
        F::CheckSigHash(h) => pkh_toks(h) + seq![Token::CheckSigVerify, Token::Number(1)],
        F::Csv(n) => seq![Token::Number(n), Token::CheckSequenceVerify],
        F::HashEqual(h) => hash_toks(h) + seq![Token::EqualVerify, Token::Number(1)],
        F::Threshold(k, e, ws) => toks_e(*e) + toks_ws(ws@)
            + seq![Token::Number(k as u32), Token::EqualVerify, Token::Number(1)],
        F::And(l, r) => toks_v(*l) + toks_f(*r),
        F::ParallelOr(l, r) => toks_e(*l) + toks_w(*r)
            + seq![Token::BoolOr, Token::Verify, Token::Number(1)],
        F::SwitchOr(l, r) => switch_toks(toks_f(*l), toks_f(*r)),
        F::SwitchOrV(l, r) => switch_toks(toks_v(*l), toks_v(*r)) + seq![Token::Number(1)],
        F::CascadeOr(l, r) => toks_e(*l) + seq![Token::IfDup, Token::NotIf] + toks_f(*r)
            + seq![Token::EndIf],
        F::CascadeOrV(l, r) => toks_e(*l) + seq![Token::NotIf] + toks_v(*r)
            + seq![Token::EndIf, Token::Number(1)],
    }
}

/// The tokens of a V expression.
pub open spec fn toks_v(v: V) -> Seq<Token>
    decreases v,
{
    match v {
        V::CheckSig(pk) => seq![Token::Pubkey(pk), Token::CheckSigVerify],
        V::CheckMultiSig(k, pks) => multi_toks(k, pks@) + seq![Token::CheckMultiSigVerify],
        V::CheckSigHash(h) => pkh_toks(h) + seq![Token::CheckSigVerify],
        V::Csv(n) => seq![Token::Number(n), Token::CheckSequenceVerify, Token::Drop],
        V::HashEqual(h) => hash_toks(h) + seq![Token::EqualVerify],
        V::Threshold(k, e, ws) => toks_e(*e) + toks_ws(ws@) + seq![Token::Number(k as u32), Token::EqualVerify],
        V::And(l, r) => toks_v(*l) + toks_v(*r),
        V::ParallelOr(l, r) => toks_e(*l) + toks_w(*r) + seq![Token::BoolOr, Token::Verify],
        V::SwitchOr(l, r) => switch_toks(toks_v(*l), toks_v(*r)),
        V::SwitchOrT(l, r) => switch_toks(toks_t(*l), toks_t(*r)) + seq![Token::Verify],
        V::CascadeOr(l, r) => toks_e(*l) + seq![Token::NotIf] + toks_v(*r) + seq![Token::EndIf],
    }
}

/// The tokens of a T expression.
pub open spec fn toks_t(t: T) -> Seq<Token>
    decreases t,
{
    match t {
        T::HashEqual(h) => hash_toks(h) + seq![Token::Equal],
        T::And(l, r) => toks_v(*l) + toks_t(*r),
        T::SwitchOr(l, r) => switch_toks(toks_t(*l), toks_t(*r)),
        T::CascadeOr(l, r) => toks_e(*l) + seq![Token::IfDup, Token::NotIf] + toks_t(*r)
            + seq![Token::EndIf],
        T::CastE(e) => toks_e(*e),
        T::CastF(f) => toks_f(*f),
    }
}

/// Appends the pushes of a list of keys.
fn push_keys(pks: &Vec<PublicKey>, out: &mut Vec<Token>)
    ensures
        final(out)@ == old(out)@ + key_toks(pks@),
{
    let ghost start = out@;
    let mut i: usize = 0;
    while i < pks.len()
        invariant
            i <= pks@.len(),
            out@ == start + key_toks(pks@.subrange(0, i as int)),
        decreases pks@.len() - i,
    {
        out.push(Token::Pubkey(pks[i]));
        i = i + 1;
        assert(out@ =~= start + key_toks(pks@.subrange(0, i as int)));
    }
    assert(pks@.subrange(0, pks@.len() as int) =~= pks@);
}

/// Appends `<k> <pk...> <len(pk)>`.
fn push_multi(k: usize, pks: &Vec<PublicKey>, out: &mut Vec<Token>)
    ensures
        final(out)@ == old(out)@ + multi_toks(k, pks@),
{
    let ghost start = out@;
    out.push(Token::Number(k as u32));
    push_keys(pks, out);
    out.push(Token::Number(pks.len() as u32));
    assert(out@ =~= start + multi_toks(k, pks@));
}

/// Appends `SIZE 32 EQUALVERIFY SHA256 <hash>`.
fn push_hash(h: Sha256dHash, out: &mut Vec<Token>)
    ensures
        final(out)@ == old(out)@ + hash_toks(h),
{
    let ghost start = out@;
    out.push(Token::Size);
    out.push(Token::Number(32));
    out.push(Token::EqualVerify);
    out.push(Token::Sha256);
    out.push(Token::Sha256Hash(h));
    assert(out@ =~= start + hash_toks(h));
}

/// Appends `DUP HASH160 <hash> EQUALVERIFY`.
fn push_pkh(h: Hash160, out: &mut Vec<Token>)
    ensures
        final(out)@ == old(out)@ + pkh_toks(h),
{
    let ghost start = out@;
    out.push(Token::Dup);
    out.push(Token::Hash160);
    out.push(Token::Hash160Hash(h));
    out.push(Token::EqualVerify);
    assert(out@ =~= start + pkh_toks(h));
}

/// Appends `<w> ADD ... <w> ADD`.
fn push_ws(ws: &Vec<W>, out: &mut Vec<Token>)
    ensures
        final(out)@ == old(out)@ + toks_ws(ws@),
    decreases ws,
{
    let ghost start = out@;
    let mut i: usize = 0;
    while i < ws.len()
        invariant
            i <= ws@.len(),
            out@ == start + toks_ws(ws@.subrange(0, i as int)),
        decreases ws@.len() - i,
    {
        assert(decreases_to!(ws => ws[i as int]));
        ws[i].serialize_tokens(out);
        out.push(Token::Add);
        i = i + 1;
        proof {
            let sub = ws@.subrange(0, i as int);
            assert(sub.drop_last() =~= ws@.subrange(0, i - 1));
            assert(out@ =~= start + toks_ws(sub));
        }
    }
    assert(ws@.subrange(0, ws@.len() as int) =~= ws@);
}

impl E {
    /// Appends the tokens of the expression.
    pub fn serialize_tokens(&self, out: &mut Vec<Token>)
        ensures
            final(out)@ == old(out)@ + toks_e(*self),
        decreases self,
    {
        let ghost start = out@;
        match self {
            E::CheckSig(pk) => {
                out.push(Token::Pubkey(*pk));
                out.push(Token::CheckSig);
            },
            E::CheckSigHash(h) => {
                push_pkh(*h, out);
                out.push(Token::CheckSig);
            },
            E::CheckSigHashF(h) => {
                out.push(Token::Size);
                out.push(Token::If);
                push_pkh(*h, out);
                out.push(Token::CheckSigVerify);
                out.push(Token::Number(1));
                out.push(Token::EndIf);
            },
            E::CheckMultiSig(k, pks) => {
                push_multi(*k, pks, out);
                out.push(Token::CheckMultiSig);
            },
            E::CheckMultiSigF(k, pks) => {
                out.push(Token::Size);
                out.push(Token::If);
                push_multi(*k, pks, out);
                out.push(Token::CheckMultiSigVerify);
                out.push(Token::Number(1));
                out.push(Token::EndIf);
            },
            E::HashEqual(h) => {
                out.push(Token::Size);
                out.push(Token::If);
                push_hash(*h, out);
                out.push(Token::EqualVerify);
                out.push(Token::Number(1));
                out.push(Token::EndIf);
            },
            E::Threshold(k, e, ws) => {
                e.serialize_tokens(out);
                push_ws(ws, out);
                out.push(Token::Number(*k as u32));
                out.push(Token::Equal);
            },
            E::ParallelAnd(l, r) => {
                l.serialize_tokens(out);
                r.serialize_tokens(out);
                out.push(Token::BoolAnd);
            },
            E::CascadeAnd(l, r) => {
                l.serialize_tokens(out);
                out.push(Token::If);
                r.serialize_tokens(out);
                out.push(Token::Else);
                out.push(Token::Number(0));
                out.push(Token::EndIf);
            },
            E::ParallelOr(l, r) => {
                l.serialize_tokens(out);
                r.serialize_tokens(out);
                out.push(Token::BoolOr);
            },
            E::CascadeOr(l, r) => {
                l.serialize_tokens(out);
                out.push(Token::IfDup);
                out.push(Token::NotIf);
                r.serialize_tokens(out);
                out.push(Token::EndIf);
            },
            E::CastF(f) => {
                out.push(Token::Size);
                out.push(Token::EqualVerify);
                out.push(Token::If);
                f.serialize_tokens(out);
                out.push(Token::Else);
                out.push(Token::Number(0));
                out.push(Token::EndIf);
            },
        }
        assert(out@ =~= start + toks_e(*self));
    }
}

impl W {
    /// Appends the tokens of the expression.
    pub fn serialize_tokens(&self, out: &mut Vec<Token>)
        ensures
            final(out)@ == old(out)@ + toks_w(*self),
        decreases self,
    {
        let ghost start = out@;
        match self {
            W::CheckSig(pk) => {
                out.push(Token::Swap);
                out.push(Token::Pubkey(*pk));
                out.push(Token::CheckSig);
            },
            W::HashEqual(h) => {
                out.push(Token::Swap);
                out.push(Token::Size);
                out.push(Token::If);
                push_hash(*h, out);
                out.push(Token::EqualVerify);
                out.push(Token::Number(1));
                out.push(Token::EndIf);
            },
            W::Csv(n) => {
                out.push(Token::Swap);
                out.push(Token::Size);
                out.push(Token::EqualVerify);
                out.push(Token::If);
                out.push(Token::Number(*n));
                out.push(Token::CheckSequenceVerify);
                out.push(Token::Else);
                out.push(Token::Number(0));
                out.push(Token::EndIf);
            },
            W::CastE(e) => {
                out.push(Token::ToAltStack);
                e.serialize_tokens(out);
                out.push(Token::FromAltStack);
            },
        }
        assert(out@ =~= start + toks_w(*self));
    }
}

impl F {
    /// Appends the tokens of the expression.
    pub fn serialize_tokens(&self, out: &mut Vec<Token>)
        ensures
            final(out)@ == old(out)@ + toks_f(*self),
        decreases self,
    {
        let ghost start = out@;
        match self {
            F::CheckSig(pk) => {
                out.push(Token::Pubkey(*pk));
                out.push(Token::CheckSigVerify);
                out.push(Token::Number(1));
            },
            F::CheckMultiSig(k, pks) => {
                push_multi(*k, pks, out);
                out.push(Token::CheckMultiSigVerify);
                out.push(Token::Number(1));
            },
            F::CheckSigHash(h) => {
                push_pkh(*h, out);
                out.push(Token::CheckSigVerify);
                out.push(Token::Number(1));
            },
            F::Csv(n) => {
                out.push(Token::Number(*n));
                out.push(Token::CheckSequenceVerify);
            },
            F::HashEqual(h) => {
                push_hash(*h, out);
                out.push(Token::EqualVerify);
                out.push(Token::Number(1));
            },
            F::Threshold(k, e, ws) => {
                e.serialize_tokens(out);
                push_ws(ws, out);
                out.push(Token::Number(*k as u32));
                out.push(Token::EqualVerify);
                out.push(Token::Number(1));
            },
            F::And(l, r) => {
                l.serialize_tokens(out);
                r.serialize_tokens(out);
            },
            F::ParallelOr(l, r) => {
                l.serialize_tokens(out);
                r.serialize_tokens(out);
                out.push(Token::BoolOr);
                out.push(Token::Verify);
                out.push(Token::Number(1));
            },
            F::SwitchOr(l, r) => {
                out.push(Token::Size);
                out.push(Token::EqualVerify);
                out.push(Token::If);
                l.serialize_tokens(out);
                out.push(Token::Else);
                r.serialize_tokens(out);
                out.push(Token::EndIf);
            },
            F::SwitchOrV(l, r) => {
                out.push(Token::Size);
                out.push(Token::EqualVerify);
                out.push(Token::If);
                l.serialize_tokens(out);
                out.push(Token::Else);
                r.serialize_tokens(out);
                out.push(Token::EndIf);
                out.push(Token::Number(1));
            },
            F::CascadeOr(l, r) => {
                l.serialize_tokens(out);
                out.push(Token::IfDup);
                out.push(Token::NotIf);
                r.serialize_tokens(out);
                out.push(Token::EndIf);
            },
            F::CascadeOrV(l, r) => {
                l.serialize_tokens(out);
                out.push(Token::NotIf);
                r.serialize_tokens(out);
                out.push(Token::EndIf);
                out.push(Token::Number(1));
            },
        }
        assert(out@ =~= start + toks_f(*self));
    }
}

impl V {
    /// Appends the tokens of the expression.
    pub fn serialize_tokens(&self, out: &mut Vec<Token>)
        ensures
            final(out)@ == old(out)@ + toks_v(*self),
        decreases self,
    {
        let ghost start = out@;
        match self {
            V::CheckSig(pk) => {
                out.push(Token::Pubkey(*pk));
                out.push(Token::CheckSigVerify);
            },
            V::CheckMultiSig(k, pks) => {
                push_multi(*k, pks, out);
                out.push(Token::CheckMultiSigVerify);
            },
            V::CheckSigHash(h) => {
                push_pkh(*h, out);
                out.push(Token::CheckSigVerify);
            },
            V::Csv(n) => {
                out.push(Token::Number(*n));
                out.push(Token::CheckSequenceVerify);
                out.push(Token::Drop);
            },
            V::HashEqual(h) => {
                push_hash(*h, out);
                out.push(Token::EqualVerify);
            },
            V::Threshold(k, e, ws) => {
                e.serialize_tokens(out);
                push_ws(ws, out);
                out.push(Token::Number(*k as u32));
                out.push(Token::EqualVerify);
            },
            V::And(l, r) => {
                l.serialize_tokens(out);
                r.serialize_tokens(out);
            },
            V::ParallelOr(l, r) => {
                l.serialize_tokens(out);
                r.serialize_tokens(out);
                out.push(Token::BoolOr);
                out.push(Token::Verify);
            },
            V::SwitchOr(l, r) => {
                out.push(Token::Size);
                out.push(Token::EqualVerify);
                out.push(Token::If);
                l.serialize_tokens(out);
                out.push(Token::Else);
                r.serialize_tokens(out);
                out.push(Token::EndIf);
            },
            V::SwitchOrT(l, r) => {
                out.push(Token::Size);
                out.push(Token::EqualVerify);
                out.push(Token::If);
                l.serialize_tokens(out);
                out.push(Token::Else);
                r.serialize_tokens(out);
                out.push(Token::EndIf);
                out.push(Token::Verify);
            },
            V::CascadeOr(l, r) => {
                l.serialize_tokens(out);
                out.push(Token::NotIf);
                r.serialize_tokens(out);
                out.push(Token::EndIf);
            },
        }
        assert(out@ =~= start + toks_v(*self));
    }
}

impl T {
    /// Appends the tokens of the expression.
    pub fn serialize_tokens(&self, out: &mut Vec<Token>)
        ensures
            final(out)@ == old(out)@ + toks_t(*self),
        decreases self,
    {
        let ghost start = out@;
        match self {
            T::HashEqual(h) => {
                push_hash(*h, out);
                out.push(Token::Equal);
            },
            T::And(l, r) => {
                l.serialize_tokens(out);
                r.serialize_tokens(out);
            },
            T::SwitchOr(l, r) => {
                out.push(Token::Size);
                out.push(Token::EqualVerify);
                out.push(Token::If);
                l.serialize_tokens(out);
                out.push(Token::Else);
                r.serialize_tokens(out);
                out.push(Token::EndIf);
            },
            T::CascadeOr(l, r) => {
                l.serialize_tokens(out);
                out.push(Token::IfDup);
                out.push(Token::NotIf);
                r.serialize_tokens(out);
                out.push(Token::EndIf);
            },
            T::CastE(e) => e.serialize_tokens(out),
            T::CastF(f) => f.serialize_tokens(out),
        }
        assert(out@ =~= start + toks_t(*self));
    }
}

/// The script bytes of a tree.
pub open spec fn tree_bytes(t: ParseTree) -> Seq<u8> {
    flat_bytes(toks_t(*t.0))
}

impl ParseTree {
    /// Serialize an AST into script form
    pub fn serialize(&self) -> (r: Vec<u8>)
        ensures
            r@ == tree_bytes(*self),
    {
        let mut toks: Vec<Token> = Vec::new();
        self.0.serialize_tokens(&mut toks);
        assert(toks@ =~= toks_t(*self.0));
        tokens_to_bytes(&toks)
    }
}

} // verus!
