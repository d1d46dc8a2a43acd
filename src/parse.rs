//! The reverse parser: rebuilds a syntax tree from tokens, consuming them from
//! the end of the script, where every fragment has a recognisable suffix.

use vstd::prelude::*;

use crate::ast::{hash_toks, key_toks, multi_toks, toks_e, toks_f, toks_t, toks_v, toks_w, toks_ws, tree_bytes, ParseTree, E, F, T, V, W};
use crate::error::Error;
use crate::keys::{Hash160, PublicKey, Sha256dHash};
use crate::script::script_num;
use crate::token::{is_op, lemma_lex_complete, lemma_lex_sound, lemma_op_token, lex, lex_spec, lexable, Token};

verus! {

/// `<pk> CHECKSIG`
pub open spec fn is_key_check(ts: Seq<Token>) -> bool {
    ts.len() == 2 && ts[0] is Pubkey && ts[1] == Token::CheckSig
}

/// `<k> <pk...> <n>`, with `n` the number of keys.
pub open spec fn is_multi_body(ts: Seq<Token>) -> bool {
    &&& ts.len() >= 2
    &&& ts[0] is Number
    &&& ts[ts.len() - 1] is Number
    &&& ts[ts.len() - 1]->Number_0 as int == ts.len() - 2
    &&& forall|i: int| 1 <= i < ts.len() - 1 ==> (#[trigger] ts[i]) is Pubkey
}

/// `<k> <pk...> <n> CHECKMULTISIG`, with `n` the number of keys.
pub open spec fn is_multi_check(ts: Seq<Token>) -> bool {
    ts.len() >= 3 && ts[ts.len() - 1] == Token::CheckMultiSig && is_multi_body(ts.drop_last())
}

/// A tree that is a single multisig check.
pub open spec fn is_multi_tree(t: ParseTree) -> bool {
    (*t.0) is CastE && (*(*t.0)->CastE_0) is CheckMultiSig
}

/// `<n> CHECKSEQUENCEVERIFY`
pub open spec fn is_csv(ts: Seq<Token>) -> bool {
    ts.len() == 2 && ts[0] is Number && ts[1] == Token::CheckSequenceVerify
}

/// `SIZE 32 EQUALVERIFY SHA256 <hash> EQUAL`
pub open spec fn is_hash_check(ts: Seq<Token>) -> bool {
    ts.len() == 6 && ts[4] is Sha256Hash && ts == hash_toks(ts[4]->Sha256Hash_0) + seq![Token::Equal]
}

/// A parsed subexpression of any of the five types.
pub enum Node {
    E(E),
    W(W),
    F(F),
    V(V),
    T(T),
}

/// The tokens of a subexpression.
pub open spec fn toks_node(n: Node) -> Seq<Token> {
    match n {
        Node::E(e) => toks_e(e),
        Node::W(w) => toks_w(w),
        Node::F(f) => toks_f(f),
        Node::V(v) => toks_v(v),
        Node::T(t) => toks_t(t),
    }
}

proof fn lemma_toks_ws_append(a: Seq<W>, b: Seq<W>)
    ensures
        toks_ws(a + b) == toks_ws(a) + toks_ws(b),
    decreases b.len(),
{
    if b.len() == 0 {
        assert(a + b =~= a);
        assert(toks_ws(a) + toks_ws(b) =~= toks_ws(a));
    } else {
        assert((a + b).drop_last() =~= a + b.drop_last());
        lemma_toks_ws_append(a, b.drop_last());
        assert(toks_ws(a + b) =~= toks_ws(a) + toks_ws(b));
    }
}

proof fn lemma_toks_ws_one(w: W)
    ensures
        toks_ws(seq![w]) == toks_w(w) + seq![Token::Add],
{
    assert(seq![w].drop_last() =~= Seq::<W>::empty());
    assert(toks_ws(Seq::<W>::empty()) =~= Seq::<Token>::empty());
    assert(toks_ws(seq![w]) =~= toks_w(w) + seq![Token::Add]);
}

/// The error for an unexpected token: it holds the token's bytes.
fn unexpected_tok(t: &Token) -> (r: Error)
    ensures
        r is Unexpected,
{
    Error::Unexpected(t.to_bytes())
}

/// The script bytes of a subexpression.
fn node_bytes(n: &Node) -> (r: Vec<u8>) {
    let mut toks: Vec<Token> = Vec::new();
    match n {
        Node::E(e) => e.serialize_tokens(&mut toks),
        Node::W(w) => w.serialize_tokens(&mut toks),
        Node::F(f) => f.serialize_tokens(&mut toks),
        Node::V(v) => v.serialize_tokens(&mut toks),
        Node::T(t) => t.serialize_tokens(&mut toks),
    }
    crate::token::tokens_to_bytes(&toks)
}

/// The error for a subexpression of the wrong type: it holds its bytes.
fn unexpected_node(n: &Node) -> (r: Error)
    ensures
        r is Unexpected,
{
    Error::Unexpected(node_bytes(n))
}

/// Takes the last token.
fn pop_tok(toks: &mut Vec<Token>) -> (r: Result<Token, Error>)
    ensures
        r is Ok ==> old(toks)@ == final(toks)@.push(r->Ok_0),
        r is Err ==> old(toks)@.len() == 0 && r == Err::<Token, Error>(Error::UnexpectedStart),
        old(toks)@.len() > 0 ==> r == Ok::<Token, Error>(old(toks)@.last()),
{
    match toks.pop() {
        Some(t) => Ok(t),
        None => Err(Error::UnexpectedStart),
    }
}

/// Takes the last token, which must be the bare opcode `want`.
fn expect(toks: &mut Vec<Token>, want: Token) -> (r: Result<(), Error>)
    requires
        is_op(want),
    ensures
        r is Ok ==> old(toks)@ == final(toks)@.push(want),
        old(toks)@.len() > 0 && old(toks)@.last() == want ==> r is Ok,
{
    let t = pop_tok(toks)?;
    let bare = !matches!(t, Token::Number(_) | Token::Hash160Hash(_) | Token::Sha256Hash(_) | Token::Pubkey(_));
    if bare && t.opcode() == want.opcode() {
        proof {
            lemma_op_token(t);
            lemma_op_token(want);
        }
        Ok(())
    } else {
        Err(unexpected_tok(&t))
    }
}

/// Takes the last token, which must be a number.
fn expect_number(toks: &mut Vec<Token>) -> (r: Result<u32, Error>)
    ensures
        r is Ok ==> old(toks)@ == final(toks)@.push(Token::Number(r->Ok_0)),
        old(toks)@.len() > 0 && old(toks)@.last() is Number ==> r == Ok::<u32, Error>(old(toks)@.last()->Number_0),
{
    let t = pop_tok(toks)?;
    match t {
        Token::Number(n) => Ok(n),
        _ => Err(unexpected_tok(&t)),
    }
}

/// Takes the last token, which must be the number `want`.
fn expect_number_eq(toks: &mut Vec<Token>, want: u32) -> (r: Result<(), Error>)
    ensures
        r is Ok ==> old(toks)@ == final(toks)@.push(Token::Number(want)),
        old(toks)@.len() > 0 && old(toks)@.last() == Token::Number(want) ==> r is Ok,
{
    let t = pop_tok(toks)?;
    match t {
        Token::Number(n) => if n == want {
            Ok(())
        } else {
            Err(unexpected_tok(&t))
        },
        _ => Err(unexpected_tok(&t)),
    }
}

/// Takes the last token, which must be a public key.
fn expect_pubkey(toks: &mut Vec<Token>) -> (r: Result<PublicKey, Error>)
    ensures
        r is Ok ==> old(toks)@ == final(toks)@.push(Token::Pubkey(r->Ok_0)),
        old(toks)@.len() > 0 && old(toks)@.last() is Pubkey ==> r is Ok,
{
    let t = pop_tok(toks)?;
    match t {
        Token::Pubkey(pk) => Ok(pk),
        _ => Err(unexpected_tok(&t)),
    }
}

/// Takes the last token, which must be a 20-byte hash.
fn expect_hash160(toks: &mut Vec<Token>) -> (r: Result<Hash160, Error>)
    ensures
        r is Ok ==> old(toks)@ == final(toks)@.push(Token::Hash160Hash(r->Ok_0)),
{
    let t = pop_tok(toks)?;
    match t {
        Token::Hash160Hash(h) => Ok(h),
        _ => Err(unexpected_tok(&t)),
    }
}

/// Takes `DUP HASH160 <hash> EQUALVERIFY` from the end, the last token already taken.
fn expect_pkh_rest(toks: &mut Vec<Token>) -> (r: Result<Hash160, Error>)
    ensures
        r is Ok ==> old(toks)@ == final(toks)@ + seq![Token::Dup, Token::Hash160, Token::Hash160Hash(r->Ok_0)],
{
    let h = expect_hash160(toks)?;
    expect(toks, Token::Hash160)?;
    expect(toks, Token::Dup)?;
    assert(old(toks)@ =~= toks@ + seq![Token::Dup, Token::Hash160, Token::Hash160Hash(h)]);
    Ok(h)
}

/// Takes `<sha256 hash> SHA256 EQUALVERIFY 32 SIZE` in reverse, the hash already taken.
fn expect_hash_rest(toks: &mut Vec<Token>) -> (r: Result<(), Error>)
    ensures
        r is Ok ==> old(toks)@ == final(toks)@ + seq![Token::Size, Token::Number(32), Token::EqualVerify, Token::Sha256],
        old(toks)@.len() >= 4 && old(toks)@.subrange(old(toks)@.len() - 4, old(toks)@.len() as int)
            == seq![Token::Size, Token::Number(32), Token::EqualVerify, Token::Sha256] ==> r is Ok,
{
    expect(toks, Token::Sha256)?;
    expect(toks, Token::EqualVerify)?;
    expect_number_eq(toks, 32)?;
    expect(toks, Token::Size)?;
    assert(old(toks)@ =~= toks@ + seq![Token::Size, Token::Number(32), Token::EqualVerify, Token::Sha256]);
    Ok(())
}

/// Takes `IF EQUALVERIFY SIZE` in reverse: the head of a switch.
fn expect_switch_head(toks: &mut Vec<Token>) -> (r: Result<(), Error>)
    ensures
        r is Ok ==> old(toks)@ == final(toks)@ + seq![Token::Size, Token::EqualVerify, Token::If],
{
    expect(toks, Token::If)?;
    expect(toks, Token::EqualVerify)?;
    expect(toks, Token::Size)?;
    assert(old(toks)@ =~= toks@ + seq![Token::Size, Token::EqualVerify, Token::If]);
    Ok(())
}

/// Takes `<k> <pk...> <n>` in reverse, after a multisig opcode.
fn expect_multi(toks: &mut Vec<Token>) -> (r: Result<(usize, Vec<PublicKey>), Error>)
    ensures
        r is Ok ==> old(toks)@ == final(toks)@ + seq![Token::Number(r->Ok_0.0 as u32)] + key_toks(r->Ok_0.1@)
            + seq![Token::Number(r->Ok_0.1@.len() as u32)],
        is_multi_body(old(toks)@) ==> r is Ok && final(toks)@.len() == 0,
{
    let ghost orig = toks@;
    let n = expect_number(toks)?;
    let ghost mid = toks@;
    let mut pks: Vec<PublicKey> = Vec::new();
    let mut i: u32 = 0;
    while i < n
        invariant
            i <= n,
            pks@.len() == i,
            mid == toks@ + key_toks(pks@),
            orig == old(toks)@,
            is_multi_body(orig) ==> n as int == orig.len() - 2 && toks@ =~= orig.subrange(0, orig.len() - 1 - i),
        decreases n - i,
    {
        proof {
            if is_multi_body(orig) {
                assert(toks@.last() == orig[orig.len() - 2 - i]);
                assert(orig[orig.len() - 2 - i] is Pubkey);
            }
        }
        let pk = expect_pubkey(toks)?;
        let ghost before = pks@;
        pks.insert(0, pk);
        assert(key_toks(pks@) =~= seq![Token::Pubkey(pk)] + key_toks(before));
        assert(mid =~= toks@ + key_toks(pks@));
        i = i + 1;
        proof {
            if is_multi_body(orig) {
                assert(toks@ =~= orig.subrange(0, orig.len() - 1 - i));
            }
        }
    }
    proof {
        if is_multi_body(orig) {
            assert(toks@.len() == 1);
            assert(toks@.last() == orig[0]);
        }
    }
    let k = expect_number(toks)?;
    assert(old(toks)@ =~= toks@ + seq![Token::Number((k as usize) as u32)] + key_toks(pks@)
        + seq![Token::Number(pks@.len() as u32)]);
    Ok((k as usize, pks))
}

/// Converts a subexpression to a top-level expression, where its type allows.
fn node_into_t(n: Node) -> (r: Result<T, Error>)
    ensures
        r is Ok ==> toks_t(r->Ok_0) == toks_node(n),
        n is E ==> r == Ok::<T, Error>(T::CastE(Box::new(n->E_0))),
        n is F ==> r == Ok::<T, Error>(T::CastF(Box::new(n->F_0))),
        n is T ==> r == Ok::<T, Error>(n->T_0),
{
    match n {
        Node::E(e) => Ok(T::CastE(Box::new(e))),
        Node::F(f) => Ok(T::CastF(Box::new(f))),
        Node::T(t) => Ok(t),
        _ => Err(unexpected_node(&n)),
    }
}

/// Parses `<E> <W> ADD ... <W> ADD` from the end, the number and the closing
/// opcode already taken.
fn parse_threshold_body(toks: &mut Vec<Token>) -> (r: Result<(E, Vec<W>), Error>)
    ensures
        r is Ok ==> old(toks)@ == final(toks)@ + toks_e(r->Ok_0.0) + toks_ws(r->Ok_0.1@),
        r is Ok ==> final(toks)@.len() <= old(toks)@.len(),
    decreases old(toks)@.len(), 2int,
{
    let ghost start = toks@;
    let mut ws: Vec<W> = Vec::new();
    assert(toks_ws(ws@) =~= Seq::<Token>::empty());
    loop
        invariant
            start == old(toks)@,
            start == toks@ + toks_ws(ws@),
            toks@.len() <= start.len(),
        decreases toks@.len(),
    {
        let tok = pop_tok(toks)?;
        match tok {
            Token::Add => {
                let sub = parse_sub(toks)?;
                match sub {
                    Node::W(w) => {
                        let ghost before = ws@;
                        ws.insert(0, w);
                        proof {
                            assert(ws@ =~= seq![w] + before);
                            lemma_toks_ws_append(seq![w], before);
                            lemma_toks_ws_one(w);
                            assert(start =~= toks@ + toks_ws(ws@));
                        }
                    },
                    _ => {
                        return Err(unexpected_node(&sub));
                    },
                }
            },
            _ => {
                toks.push(tok);
                let sub = parse_sub(toks)?;
                match sub {
                    Node::E(e) => {
                        assert(start =~= toks@ + toks_e(e) + toks_ws(ws@));
                        return Ok((e, ws));
                    },
                    _ => {
                        return Err(unexpected_node(&sub));
                    },
                }
            },
        }
    }
}

/// Parses one fragment, recognised by its last token.
#[verifier::rlimit(100)]
#[verifier::spinoff_prover]
fn parse_single(toks: &mut Vec<Token>) -> (r: Result<Node, Error>)
    ensures
        r is Ok ==> old(toks)@ == final(toks)@ + toks_node(r->Ok_0),
        r is Ok ==> final(toks)@.len() < old(toks)@.len(),
        is_key_check(old(toks)@) ==> r == Ok::<Node, Error>(Node::E(E::CheckSig(old(toks)@[0]->Pubkey_0)))
            && final(toks)@.len() == 0,
        is_csv(old(toks)@) ==> r == Ok::<Node, Error>(Node::F(F::Csv(old(toks)@[0]->Number_0)))
            && final(toks)@.len() == 0,
        is_hash_check(old(toks)@) ==> r == Ok::<Node, Error>(Node::T(T::HashEqual(old(toks)@[4]->Sha256Hash_0)))
            && final(toks)@.len() == 0,
        is_multi_check(old(toks)@) ==> r is Ok && r->Ok_0 is E && r->Ok_0->E_0 is CheckMultiSig
            && final(toks)@.len() == 0,
    decreases old(toks)@.len(), 0int,
{
    let ghost start = toks@;
    let tok = pop_tok(toks)?;
    match tok {
        Token::BoolAnd => {
            let w = match parse_sub(toks)? {
                Node::W(w) => w,
                other => return Err(unexpected_node(&other)),
            };
            let e = match parse_sub(toks)? {
                Node::E(e) => e,
                other => return Err(unexpected_node(&other)),
            };
            let r = E::ParallelAnd(Box::new(e), Box::new(w));
            assert(start =~= toks@ + toks_e(r));
            Ok(Node::E(r))
        },
        Token::BoolOr => {
            let w = match parse_sub(toks)? {
                Node::W(w) => w,
                other => return Err(unexpected_node(&other)),
            };
            let e = match parse_sub(toks)? {
                Node::E(e) => e,
                other => return Err(unexpected_node(&other)),
            };
            let r = E::ParallelOr(Box::new(e), Box::new(w));
            assert(start =~= toks@ + toks_e(r));
            Ok(Node::E(r))
        },
        Token::Equal => {
            let next = pop_tok(toks)?;
            match next {
                Token::Sha256Hash(h) => {
                    proof {
                        if is_hash_check(start) {
                            let hs = hash_toks(start[4]->Sha256Hash_0) + seq![Token::Equal];
                            assert(start == hs);
                            assert(start =~= toks@.push(Token::Sha256Hash(h)).push(Token::Equal));
                            assert(toks@ =~= start.subrange(0, 4));
                            assert(hs.subrange(0, 4) =~= seq![Token::Size, Token::Number(32), Token::EqualVerify, Token::Sha256]);
                            assert(toks@ =~= seq![Token::Size, Token::Number(32), Token::EqualVerify, Token::Sha256]);
                            assert(toks@.subrange(0, 4) =~= toks@);
                        }
                    }
                    expect_hash_rest(toks)?;
                    let r = T::HashEqual(h);
                    assert(start =~= toks@ + toks_t(r));
                    Ok(Node::T(r))
                },
                Token::Number(k) => {
                    let (e, ws) = parse_threshold_body(toks)?;
                    let r = E::Threshold(k as usize, Box::new(e), ws);
                    assert(start =~= toks@ + toks_e(r));
                    Ok(Node::E(r))
                },
                _ => Err(unexpected_tok(&next)),
            }
        },
        Token::EqualVerify => {
            let next = pop_tok(toks)?;
            match next {
                Token::Sha256Hash(h) => {
                    expect_hash_rest(toks)?;
                    let r = V::HashEqual(h);
                    assert(start =~= toks@ + toks_v(r));
                    Ok(Node::V(r))
                },
                Token::Number(k) => {
                    let (e, ws) = parse_threshold_body(toks)?;
                    let r = V::Threshold(k as usize, Box::new(e), ws);
                    assert(start =~= toks@ + toks_v(r));
                    Ok(Node::V(r))
                },
                _ => Err(unexpected_tok(&next)),
            }
        },
        Token::CheckSig => {
            let next = pop_tok(toks)?;
            match next {
                Token::EqualVerify => {
                    let h = expect_pkh_rest(toks)?;
                    let r = E::CheckSigHash(h);
                    assert(start =~= toks@ + toks_e(r));
                    Ok(Node::E(r))
                },
                Token::Pubkey(pk) => {
                    match toks.pop() {
                        Some(Token::Swap) => {
                            let r = W::CheckSig(pk);
                            assert(start =~= toks@ + toks_w(r));
                            Ok(Node::W(r))
                        },
                        Some(x) => {
                            toks.push(x);
                            let r = E::CheckSig(pk);
                            assert(start =~= toks@ + toks_e(r));
                            Ok(Node::E(r))
                        },
                        None => {
                            let r = E::CheckSig(pk);
                            assert(start =~= toks@ + toks_e(r));
                            Ok(Node::E(r))
                        },
                    }
                },
                _ => Err(unexpected_tok(&next)),
            }
        },
        Token::CheckSigVerify => {
            let next = pop_tok(toks)?;
            match next {
                Token::EqualVerify => {
                    let h = expect_pkh_rest(toks)?;
                    let r = V::CheckSigHash(h);
                    assert(start =~= toks@ + toks_v(r));
                    Ok(Node::V(r))
                },
                Token::Pubkey(pk) => {
                    let r = V::CheckSig(pk);
                    assert(start =~= toks@ + toks_v(r));
                    Ok(Node::V(r))
                },
                _ => Err(unexpected_tok(&next)),
            }
        },
        Token::CheckMultiSig => {
            proof {
                if is_multi_check(start) {
                    assert(toks@ =~= start.drop_last());
                }
            }
            let (k, pks) = expect_multi(toks)?;
            let r = E::CheckMultiSig(k, pks);
            assert(start =~= toks@ + toks_e(r));
            Ok(Node::E(r))
        },
        Token::CheckMultiSigVerify => {
            let (k, pks) = expect_multi(toks)?;
            let r = V::CheckMultiSig(k, pks);
            assert(start =~= toks@ + toks_v(r));
            Ok(Node::V(r))
        },
        Token::CheckSequenceVerify => {
            let n = expect_number(toks)?;
            let r = F::Csv(n);
            assert(start =~= toks@ + toks_f(r));
            Ok(Node::F(r))
        },
        Token::FromAltStack => {
            let e = match parse_sub(toks)? {
                Node::E(e) => e,
                other => return Err(unexpected_node(&other)),
            };
            expect(toks, Token::ToAltStack)?;
            let r = W::CastE(Box::new(e));
            assert(start =~= toks@ + toks_w(r));
            Ok(Node::W(r))
        },
        Token::Drop => {
            expect(toks, Token::CheckSequenceVerify)?;
            let n = expect_number(toks)?;
            let r = V::Csv(n);
            assert(start =~= toks@ + toks_v(r));
            Ok(Node::V(r))
        },
        Token::EndIf => parse_endif(toks),
        Token::Verify => {
            let next = pop_tok(toks)?;
            match next {
                Token::EndIf => {
                    let right = node_into_t(parse_sub(toks)?)?;
                    expect(toks, Token::Else)?;
                    let left = node_into_t(parse_sub(toks)?)?;
                    expect_switch_head(toks)?;
                    let r = V::SwitchOrT(Box::new(left), Box::new(right));
                    assert(start =~= toks@ + toks_v(r));
                    Ok(Node::V(r))
                },
                Token::BoolOr => {
                    let w = match parse_sub(toks)? {
                        Node::W(w) => w,
                        other => return Err(unexpected_node(&other)),
                    };
                    let e = match parse_sub(toks)? {
                        Node::E(e) => e,
                        other => return Err(unexpected_node(&other)),
                    };
                    let r = V::ParallelOr(Box::new(e), Box::new(w));
                    assert(start =~= toks@ + toks_v(r));
                    Ok(Node::V(r))
                },
                _ => Err(unexpected_tok(&next)),
            }
        },
        Token::Number(1) => {
            let v = match parse_sub(toks)? {
                Node::V(v) => v,
                other => return Err(unexpected_node(&other)),
            };
            let ghost vt = toks_v(v);
            let r = match v {
                V::CheckSig(pk) => F::CheckSig(pk),
                V::CheckSigHash(h) => F::CheckSigHash(h),
                V::CheckMultiSig(k, keys) => F::CheckMultiSig(k, keys),
                V::HashEqual(h) => F::HashEqual(h),
                V::Threshold(k, e, ws) => F::Threshold(k, e, ws),
                V::ParallelOr(l, r) => F::ParallelOr(l, r),
                V::SwitchOr(l, r) => F::SwitchOrV(l, r),
                V::CascadeOr(l, r) => F::CascadeOrV(l, r),
                x => return Err(unexpected_node(&Node::V(x))),
            };
            assert(start =~= toks@ + toks_f(r));
            Ok(Node::F(r))
        },
        _ => Err(unexpected_tok(&tok)),
    }
}

/// Parses a fragment that ends in `ENDIF`, the `ENDIF` already taken.
#[verifier::rlimit(100)]
#[verifier::spinoff_prover]
fn parse_endif(toks: &mut Vec<Token>) -> (r: Result<Node, Error>)
    ensures
        r is Ok ==> old(toks)@.push(Token::EndIf) == final(toks)@ + toks_node(r->Ok_0),
        r is Ok ==> final(toks)@.len() <= old(toks)@.len(),
    decreases old(toks)@.len(), 2int,
{
    let ghost start = toks@.push(Token::EndIf);
    let tok = pop_tok(toks)?;
    match tok {
        Token::Number(0) => {
            expect(toks, Token::Else)?;
            let right = match parse_sub(toks)? {
                Node::F(f) => f,
                other => return Err(unexpected_node(&other)),
            };
            let t2 = pop_tok(toks)?;
            match t2 {
                Token::If => {
                    let t3 = pop_tok(toks)?;
                    match t3 {
                        Token::EqualVerify => {
                            expect(toks, Token::Size)?;
                            match right {
                                F::Csv(n) => {
                                    match toks.pop() {
                                        Some(Token::Swap) => {
                                            let r = W::Csv(n);
                                            assert(start =~= toks@ + toks_w(r));
                                            Ok(Node::W(r))
                                        },
                                        Some(x) => {
                                            toks.push(x);
                                            let r = E::CastF(Box::new(F::Csv(n)));
                                            assert(start =~= toks@ + toks_e(r));
                                            Ok(Node::E(r))
                                        },
                                        None => {
                                            let r = E::CastF(Box::new(F::Csv(n)));
                                            assert(start =~= toks@ + toks_e(r));
                                            Ok(Node::E(r))
                                        },
                                    }
                                },
                                F::And(..) | F::SwitchOr(..) | F::SwitchOrV(..) | F::CascadeOr(..) => {
                                    let r = E::CastF(Box::new(right));
                                    assert(start =~= toks@ + toks_e(r));
                                    Ok(Node::E(r))
                                },
                                _ => Err(unexpected_node(&Node::F(right))),
                            }
                        },
                        _ => {
                            toks.push(t3);
                            let left = match parse_sub(toks)? {
                                Node::E(e) => e,
                                other => return Err(unexpected_node(&other)),
                            };
                            let r = E::CascadeAnd(Box::new(left), Box::new(right));
                            assert(start =~= toks@ + toks_e(r));
                            Ok(Node::E(r))
                        },
                    }
                },
                _ => Err(unexpected_tok(&t2)),
            }
        },
        _ => {
            toks.push(tok);
            let sub = parse_sub(toks)?;
            match sub {
                Node::E(right) => {
                    expect(toks, Token::NotIf)?;
                    expect(toks, Token::IfDup)?;
                    let left = match parse_sub(toks)? {
                        Node::E(e) => e,
                        other => return Err(unexpected_node(&other)),
                    };
                    let r = E::CascadeOr(Box::new(left), Box::new(right));
                    assert(start =~= toks@ + toks_e(r));
                    Ok(Node::E(r))
                },
                Node::F(right) => {
                    let t = pop_tok(toks)?;
                    match t {
                        Token::NotIf => {
                            expect(toks, Token::IfDup)?;
                            let left = match parse_sub(toks)? {
                                Node::E(e) => e,
                                other => return Err(unexpected_node(&other)),
                            };
                            let r = F::CascadeOr(Box::new(left), Box::new(right));
                            assert(start =~= toks@ + toks_f(r));
                            Ok(Node::F(r))
                        },
                        Token::If => {
                            expect(toks, Token::Size)?;
                            match right {
                                F::CheckSigHash(h) => {
                                    let r = E::CheckSigHashF(h);
                                    assert(start =~= toks@ + toks_e(r));
                                    Ok(Node::E(r))
                                },
                                F::CheckMultiSig(k, pks) => {
                                    let r = E::CheckMultiSigF(k, pks);
                                    assert(start =~= toks@ + toks_e(r));
                                    Ok(Node::E(r))
                                },
                                F::HashEqual(h) => {
                                    match toks.pop() {
                                        Some(Token::Swap) => {
                                            let r = W::HashEqual(h);
                                            assert(start =~= toks@ + toks_w(r));
                                            Ok(Node::W(r))
                                        },
                                        Some(x) => {
                                            toks.push(x);
                                            let r = E::HashEqual(h);
                                            assert(start =~= toks@ + toks_e(r));
                                            Ok(Node::E(r))
                                        },
                                        None => {
                                            let r = E::HashEqual(h);
                                            assert(start =~= toks@ + toks_e(r));
                                            Ok(Node::E(r))
                                        },
                                    }
                                },
                                x => Err(unexpected_node(&Node::F(x))),
                            }
                        },
                        Token::Else => {
                            let left = match parse_sub(toks)? {
                                Node::F(f) => f,
                                other => return Err(unexpected_node(&other)),
                            };
                            expect_switch_head(toks)?;
                            let r = F::SwitchOr(Box::new(left), Box::new(right));
                            assert(start =~= toks@ + toks_f(r));
                            Ok(Node::F(r))
                        },
                        _ => Err(unexpected_tok(&t)),
                    }
                },
                Node::V(right) => {
                    let t = pop_tok(toks)?;
                    match t {
                        Token::Else => {
                            let left = match parse_sub(toks)? {
                                Node::V(v) => v,
                                other => return Err(unexpected_node(&other)),
                            };
                            expect_switch_head(toks)?;
                            let r = V::SwitchOr(Box::new(left), Box::new(right));
                            assert(start =~= toks@ + toks_v(r));
                            Ok(Node::V(r))
                        },
                        Token::NotIf => {
                            let left = match parse_sub(toks)? {
                                Node::E(e) => e,
                                other => return Err(unexpected_node(&other)),
                            };
                            let r = V::CascadeOr(Box::new(left), Box::new(right));
                            assert(start =~= toks@ + toks_v(r));
                            Ok(Node::V(r))
                        },
                        _ => Err(unexpected_tok(&t)),
                    }
                },
                Node::T(right) => {
                    let t = pop_tok(toks)?;
                    match t {
                        Token::Else => {
                            let left = node_into_t(parse_sub(toks)?)?;
                            expect_switch_head(toks)?;
                            let r = T::SwitchOr(Box::new(left), Box::new(right));
                            assert(start =~= toks@ + toks_t(r));
                            Ok(Node::T(r))
                        },
                        Token::NotIf => {
                            expect(toks, Token::IfDup)?;
                            let left = match parse_sub(toks)? {
                                Node::E(e) => e,
                                other => return Err(unexpected_node(&other)),
                            };
                            let r = T::CascadeOr(Box::new(left), Box::new(right));
                            assert(start =~= toks@ + toks_t(r));
                            Ok(Node::T(r))
                        },
                        _ => Err(unexpected_tok(&t)),
                    }
                },
                Node::W(_) => Err(unexpected_node(&sub)),
            }
        },
    }
}

/// Parses a subexpression: one fragment, and, where it is of type T, F or V
/// and more tokens precede it that do not open an enclosing construct, the V
/// expression juxtaposed before it.
fn parse_sub(toks: &mut Vec<Token>) -> (r: Result<Node, Error>)
    ensures
        r is Ok ==> old(toks)@ == final(toks)@ + toks_node(r->Ok_0),
        r is Ok ==> final(toks)@.len() < old(toks)@.len(),
        is_key_check(old(toks)@) ==> r == Ok::<Node, Error>(Node::E(E::CheckSig(old(toks)@[0]->Pubkey_0)))
            && final(toks)@.len() == 0,
        is_csv(old(toks)@) ==> r == Ok::<Node, Error>(Node::F(F::Csv(old(toks)@[0]->Number_0)))
            && final(toks)@.len() == 0,
        is_hash_check(old(toks)@) ==> r == Ok::<Node, Error>(Node::T(T::HashEqual(old(toks)@[4]->Sha256Hash_0)))
            && final(toks)@.len() == 0,
        is_multi_check(old(toks)@) ==> r is Ok && r->Ok_0 is E && r->Ok_0->E_0 is CheckMultiSig
            && final(toks)@.len() == 0,
    decreases old(toks)@.len(), 1int,
{
    let ghost start = toks@;
    let ret = parse_single(toks)?;
    if let Node::W(_) = ret {
        return Ok(ret);
    }
    let n = toks.len();
    if n == 0 {
        return Ok(ret);
    }
    match toks[n - 1] {
        Token::If | Token::NotIf | Token::Else => {
            return Ok(ret);
        },
        _ => {},
    }
    let left = match parse_sub(toks)? {
        Node::V(v) => v,
        other => return Err(unexpected_node(&other)),
    };
    match ret {
        Node::E(e) => {
            let c = T::CastE(Box::new(e));
            assert(toks_t(c) == toks_e(e));
            let r = T::And(Box::new(left), Box::new(c));
            assert(start =~= toks@ + toks_t(r));
            Ok(Node::T(r))
        },
        Node::F(f) => {
            let c = T::CastF(Box::new(f));
            assert(toks_t(c) == toks_f(f));
            let r = T::And(Box::new(left), Box::new(c));
            assert(start =~= toks@ + toks_t(r));
            Ok(Node::T(r))
        },
        Node::T(t) => {
            let r = T::And(Box::new(left), Box::new(t));
            assert(start =~= toks@ + toks_t(r));
            Ok(Node::T(r))
        },
        Node::V(v) => {
            let r = V::And(Box::new(left), Box::new(v));
            assert(start =~= toks@ + toks_v(r));
            Ok(Node::V(r))
        },
        Node::W(w) => Ok(Node::W(w)),
    }
}

impl ParseTree {
    /// Attempt to parse a script into an AST.
    ///
    /// Whatever it accepts serialises back to exactly the script. A script
    /// that does not lex fails with the lexer's error. The single-fragment
    /// scripts `<pk> CHECKSIG`, `<n> CSV`, `SIZE 32 EQUALVERIFY SHA256 <h>
    /// EQUAL` and `<k> <pk...> <n> CHECKMULTISIG` parse to their trees.
    pub fn parse(script: &[u8]) -> (r: Result<ParseTree, Error>)
        ensures
            r is Ok ==> tree_bytes(r->Ok_0) == script@,
            lex_spec(script@) is Err ==> r is Err && r->Err_0@ == lex_spec(script@)->Err_0,
            script@.len() == 0 ==> r is Err,
            lex_spec(script@) is Ok && is_key_check(lex_spec(script@)->Ok_0) ==> r == Ok::<ParseTree, Error>(
                ParseTree(Box::new(T::CastE(Box::new(E::CheckSig(lex_spec(script@)->Ok_0[0]->Pubkey_0))))),
            ),
            lex_spec(script@) is Ok && is_csv(lex_spec(script@)->Ok_0) ==> r == Ok::<ParseTree, Error>(
                ParseTree(Box::new(T::CastF(Box::new(F::Csv(lex_spec(script@)->Ok_0[0]->Number_0))))),
            ),
            lex_spec(script@) is Ok && is_hash_check(lex_spec(script@)->Ok_0) ==> r == Ok::<ParseTree, Error>(
                ParseTree(Box::new(T::HashEqual(lex_spec(script@)->Ok_0[4]->Sha256Hash_0))),
            ),
            lex_spec(script@) is Ok && is_multi_check(lex_spec(script@)->Ok_0) ==> r is Ok && is_multi_tree(r->Ok_0),
    {
        let mut toks = lex(script)?;
        let ghost all = toks@;
        let top = parse_sub(&mut toks)?;
        let t = node_into_t(top)?;
        if toks.len() > 0 {
            let leading = toks[toks.len() - 1];
            Err(unexpected_tok(&leading))
        } else {
            proof {
                assert(all =~= toks_t(t));
                lemma_lex_sound(script@);
            }
            Ok(ParseTree(Box::new(t)))
        }
    }
}

/// A key check serialises to a script that parses back to it.
pub proof fn lemma_key_check_round_trip(pk: PublicKey)
    requires
        pk.valid(),
    ensures
        ({
            let b = tree_bytes(ParseTree(Box::new(T::CastE(Box::new(E::CheckSig(pk))))));
            lex_spec(b) is Ok && is_key_check(lex_spec(b)->Ok_0) && lex_spec(b)->Ok_0[0]->Pubkey_0 == pk
        }),
{
    let ts = seq![Token::Pubkey(pk), Token::CheckSig];
    assert(toks_e(E::CheckSig(pk)) == ts);
    assert(toks_t(T::CastE(Box::new(E::CheckSig(pk)))) == ts);
    assert(forall|i: int| 0 <= i < ts.len() ==> lexable(#[trigger] ts[i]));
    lemma_lex_complete(ts);
}

/// A relative locktime whose number fits the lexer serialises to a script
/// that parses back to it.
pub proof fn lemma_csv_round_trip(n: u32)
    requires
        script_num(n as nat).len() <= 4,
    ensures
        ({
            let b = tree_bytes(ParseTree(Box::new(T::CastF(Box::new(F::Csv(n))))));
            lex_spec(b) is Ok && is_csv(lex_spec(b)->Ok_0) && lex_spec(b)->Ok_0[0]->Number_0 == n
        }),
{
    let ts = seq![Token::Number(n), Token::CheckSequenceVerify];
    assert(toks_f(F::Csv(n)) == ts);
    assert(toks_t(T::CastF(Box::new(F::Csv(n)))) == ts);
    assert(forall|i: int| 0 <= i < ts.len() ==> lexable(#[trigger] ts[i]));
    lemma_lex_complete(ts);
}

/// A hash check serialises to a script that parses back to it.
pub proof fn lemma_hash_check_round_trip(h: Sha256dHash)
    ensures
        ({
            let b = tree_bytes(ParseTree(Box::new(T::HashEqual(h))));
            lex_spec(b) is Ok && is_hash_check(lex_spec(b)->Ok_0) && lex_spec(b)->Ok_0[4]->Sha256Hash_0 == h
        }),
{
    let ts = hash_toks(h) + seq![Token::Equal];
    assert(ts =~= seq![Token::Size, Token::Number(32), Token::EqualVerify, Token::Sha256, Token::Sha256Hash(h), Token::Equal]);
    assert(crate::script::le_bytes(32) =~= seq![32u8]) by {
        reveal_with_fuel(crate::script::le_bytes, 3);
    }
    assert(forall|i: int| 0 <= i < ts.len() ==> lexable(#[trigger] ts[i]));
    lemma_lex_complete(ts);
}

/// A multisig check whose numbers fit the lexer serialises to a script that
/// parses back to a multisig check of the same bytes, hence the same tree.
pub proof fn lemma_multi_round_trip(k: usize, keys: Vec<PublicKey>)
    requires
        k <= u32::MAX,
        keys@.len() <= u32::MAX,
        script_num(k as nat).len() <= 4,
        script_num(keys@.len()).len() <= 4,
        forall|i: int| 0 <= i < keys@.len() ==> (#[trigger] keys@[i]).valid(),
    ensures
        ({
            let b = tree_bytes(ParseTree(Box::new(T::CastE(Box::new(E::CheckMultiSig(k, keys))))));
            lex_spec(b) is Ok && is_multi_check(lex_spec(b)->Ok_0)
        }),
{
    let ts = multi_toks(k, keys@) + seq![Token::CheckMultiSig];
    assert(toks_e(E::CheckMultiSig(k, keys)) == ts);
    assert(toks_t(T::CastE(Box::new(E::CheckMultiSig(k, keys)))) == ts);
    assert forall|i: int| 0 <= i < ts.len() implies lexable(#[trigger] ts[i]) by {
        if 1 <= i < ts.len() - 2 {
            assert(ts[i] == Token::Pubkey(keys@[i - 1]));
        }
    }
    lemma_lex_complete(ts);
    let body = ts.drop_last();
    assert forall|i: int| 1 <= i < body.len() - 1 implies (#[trigger] body[i]) is Pubkey by {
        assert(body[i] == Token::Pubkey(keys@[i - 1]));
    }
}

} // verus!
