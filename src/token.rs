//! The token model of the accepted Script subset, and the lexer.

use vstd::prelude::*;

use crate::error::{Error, ErrorView, ScriptError};
use crate::keys::{array_of, lemma_array_of, lemma_array_of_view, copy_at, eq_at, vec_at, Hash160, PublicKey, Sha256dHash};
use crate::script::{is_minimal_num, lemma_le_value_bound, lemma_script_num_len, lemma_script_num_minimal, le_value, push_data, push_data_bytes, push_int, push_int_bytes, push_script_num, read_le, script_num};
use crate::secp::{is_pubkey, parse_pubkey};

verus! {

/// Atom of a tokenized version of a script
#[derive(Debug, Copy, Clone, PartialEq, Eq)]
pub enum Token {
    BoolAnd,
    BoolOr,
    Add,
    Equal,
    EqualVerify,
    CheckSig,
    CheckSigVerify,
    CheckMultiSig,
    CheckMultiSigVerify,
    CheckSequenceVerify,
    FromAltStack,
    ToAltStack,
    Drop,
    Dup,
    If,
    IfDup,
    NotIf,
    Else,
    EndIf,
    Size,
    Swap,
    Tuck,
    Verify,
    Hash160,
    Sha256,
    Number(u32),
    Hash160Hash(Hash160),
    Sha256Hash(Sha256dHash),
    Pubkey(PublicKey),
}

/// Whether a token is a bare opcode (it carries no data).
pub open spec fn is_op(t: Token) -> bool {
    !(t is Number || t is Hash160Hash || t is Sha256Hash || t is Pubkey)
}

/// The opcode byte of a bare opcode token.
pub open spec fn op_byte(t: Token) -> u8 {
    match t {
        Token::BoolAnd => 0x9a,
        Token::BoolOr => 0x9b,
        Token::Add => 0x93,
        Token::Equal => 0x87,
        Token::EqualVerify => 0x88,
        Token::CheckSig => 0xac,
        Token::CheckSigVerify => 0xad,
        Token::CheckMultiSig => 0xae,
        Token::CheckMultiSigVerify => 0xaf,
        Token::CheckSequenceVerify => 0xb2,
        Token::FromAltStack => 0x6c,
        Token::ToAltStack => 0x6b,
        Token::Drop => 0x75,
        Token::Dup => 0x76,
        Token::If => 0x63,
        Token::IfDup => 0x73,
        Token::NotIf => 0x64,
        Token::Else => 0x67,
        Token::EndIf => 0x68,
        Token::Size => 0x82,
        Token::Swap => 0x7c,
        Token::Tuck => 0x7d,
        Token::Verify => 0x69,
        Token::Hash160 => 0xa9,
        Token::Sha256 => 0xa8,
        _ => 0,
    }
}

/// The bare opcode token of an opcode byte, if it is one of the subset.
pub open spec fn token_of_op(op: u8) -> Option<Token> {
    if op == 0x9a { Some(Token::BoolAnd) }
    else if op == 0x9b { Some(Token::BoolOr) }
    else if op == 0x93 { Some(Token::Add) }
    else if op == 0x87 { Some(Token::Equal) }
    else if op == 0x88 { Some(Token::EqualVerify) }
    else if op == 0xac { Some(Token::CheckSig) }
    else if op == 0xad { Some(Token::CheckSigVerify) }
    else if op == 0xae { Some(Token::CheckMultiSig) }
    else if op == 0xaf { Some(Token::CheckMultiSigVerify) }
    else if op == 0xb2 { Some(Token::CheckSequenceVerify) }
    else if op == 0x6c { Some(Token::FromAltStack) }
    else if op == 0x6b { Some(Token::ToAltStack) }
    else if op == 0x75 { Some(Token::Drop) }
    else if op == 0x76 { Some(Token::Dup) }
    else if op == 0x63 { Some(Token::If) }
    else if op == 0x73 { Some(Token::IfDup) }
    else if op == 0x64 { Some(Token::NotIf) }
    else if op == 0x67 { Some(Token::Else) }
    else if op == 0x68 { Some(Token::EndIf) }
    else if op == 0x82 { Some(Token::Size) }
    else if op == 0x7c { Some(Token::Swap) }
    else if op == 0x7d { Some(Token::Tuck) }
    else if op == 0x69 { Some(Token::Verify) }
    else if op == 0xa9 { Some(Token::Hash160) }
    else if op == 0xa8 { Some(Token::Sha256) }
    else { None }
}

/// The script bytes of one token.
pub open spec fn token_bytes(t: Token) -> Seq<u8> {
    match t {
        Token::Number(n) => push_int(n as nat),
        Token::Hash160Hash(h) => push_data(h.bytes@),
        Token::Sha256Hash(h) => push_data(h.bytes@),
        Token::Pubkey(pk) => push_data(pk.bytes@),
        _ => seq![op_byte(t)],
    }
}

/// The script bytes of a token sequence.
pub open spec fn flat_bytes(ts: Seq<Token>) -> Seq<u8>
    decreases ts.len(),
{
    if ts.len() == 0 {
        seq![]
    } else {
        flat_bytes(ts.drop_last()) + token_bytes(ts.last())
    }
}

/// Serialising a concatenation concatenates the serialisations.
pub proof fn lemma_flat_bytes_append(a: Seq<Token>, b: Seq<Token>)
    ensures
        flat_bytes(a + b) == flat_bytes(a) + flat_bytes(b),
    decreases b.len(),
{
    if b.len() == 0 {
        assert(a + b =~= a);
        assert(flat_bytes(a) + flat_bytes(b) =~= flat_bytes(a));
    } else {
        assert((a + b).drop_last() =~= a + b.drop_last());
        lemma_flat_bytes_append(a, b.drop_last());
        assert(flat_bytes(a + b) =~= flat_bytes(a) + flat_bytes(b));
    }
}

impl Token {
    /// The opcode byte of a bare opcode token.
    pub fn opcode(&self) -> (r: u8)
        ensures
            r == op_byte(*self),
    {
        match self {
            Token::BoolAnd => 0x9a,
            Token::BoolOr => 0x9b,
            Token::Add => 0x93,
            Token::Equal => 0x87,
            Token::EqualVerify => 0x88,
            Token::CheckSig => 0xac,
            Token::CheckSigVerify => 0xad,
            Token::CheckMultiSig => 0xae,
            Token::CheckMultiSigVerify => 0xaf,
            Token::CheckSequenceVerify => 0xb2,
            Token::FromAltStack => 0x6c,
            Token::ToAltStack => 0x6b,
            Token::Drop => 0x75,
            Token::Dup => 0x76,
            Token::If => 0x63,
            Token::IfDup => 0x73,
            Token::NotIf => 0x64,
            Token::Else => 0x67,
            Token::EndIf => 0x68,
            Token::Size => 0x82,
            Token::Swap => 0x7c,
            Token::Tuck => 0x7d,
            Token::Verify => 0x69,
            Token::Hash160 => 0xa9,
            Token::Sha256 => 0xa8,
            _ => 0,
        }
    }

    /// Appends the script bytes of the token.
    pub fn serialize(&self, out: &mut Vec<u8>)
        ensures
            final(out)@ == old(out)@ + token_bytes(*self),
    {
        match self {
            Token::Number(n) => push_int_bytes(*n as u64, out),
            Token::Hash160Hash(h) => push_data_bytes(h.bytes.as_slice(), out),
            Token::Sha256Hash(h) => push_data_bytes(h.bytes.as_slice(), out),
            Token::Pubkey(pk) => push_data_bytes(pk.bytes.as_slice(), out),
            _ => {
                let op = self.opcode();
                out.push(op);
                assert(out@ =~= old(out)@ + token_bytes(*self));
            },
        }
    }

    /// The script bytes of the token.
    pub fn to_bytes(&self) -> (r: Vec<u8>)
        ensures
            r@ == token_bytes(*self),
    {
        let mut out: Vec<u8> = Vec::new();
        self.serialize(&mut out);
        assert(out@ =~= token_bytes(*self));
        out
    }
}

/// The script bytes of a token sequence.
pub fn tokens_to_bytes(ts: &Vec<Token>) -> (r: Vec<u8>)
    ensures
        r@ == flat_bytes(ts@),
{
    let mut out: Vec<u8> = Vec::new();
    let mut i: usize = 0;
    while i < ts.len()
        invariant
            i <= ts@.len(),
            out@ == flat_bytes(ts@.subrange(0, i as int)),
        decreases ts@.len() - i,
    {
        ts[i].serialize(&mut out);
        i = i + 1;
        assert(ts@.subrange(0, i as int).drop_last() =~= ts@.subrange(0, i - 1));
    }
    assert(ts@.subrange(0, ts@.len() as int) =~= ts@);
    out
}

/// The token of a data push.
pub open spec fn push_token(d: Seq<u8>) -> Result<Token, ErrorView> {
    if d.len() == 20 {
        Ok(Token::Hash160Hash(Hash160 { bytes: array_of::<20>(d) }))
    } else if d.len() == 32 {
        Ok(Token::Sha256Hash(Sha256dHash { bytes: array_of::<32>(d) }))
    } else if d.len() == 33 {
        if is_pubkey(d) {
            Ok(Token::Pubkey(PublicKey { bytes: array_of::<33>(d) }))
        } else {
            Err(ErrorView::BadPubkey(d))
        }
    } else if d.len() > 4 {
        Err(ErrorView::Script(ScriptError::NumericOverflow))
    } else if is_minimal_num(d) {
        Ok(Token::Number(le_value(d) as u32))
    } else {
        Err(ErrorView::InvalidPush(d))
    }
}

/// The width of the length field of `OP_PUSHDATA1`, `OP_PUSHDATA2`, `OP_PUSHDATA4`.
pub open spec fn pushdata_width(op: u8) -> nat {
    if op == 0x4c {
        1
    } else if op == 0x4d {
        2
    } else {
        4
    }
}

/// The smallest length for which `OP_PUSHDATA1/2/4` is the minimal push.
pub open spec fn pushdata_min(op: u8) -> nat {
    if op == 0x4c {
        76
    } else if op == 0x4d {
        256
    } else {
        65536
    }
}

/// Decodes the first instruction of a non-empty script into a token and the
/// number of bytes it takes.
pub open spec fn instr(b: Seq<u8>) -> Result<(Token, nat), ErrorView> {
    let op = b[0];
    if op == 0 {
        Ok((Token::Number(0), 1))
    } else if op <= 0x4b {
        if b.len() < 1 + op {
            Err(ErrorView::Script(ScriptError::EarlyEndOfScript))
        } else {
            match push_token(b.subrange(1, 1 + op)) {
                Ok(t) => Ok((t, (1 + op) as nat)),
                Err(e) => Err(e),
            }
        }
    } else if op == 0x4c || op == 0x4d || op == 0x4e {
        let w = pushdata_width(op) as int;
        if b.len() < 1 + w {
            Err(ErrorView::Script(ScriptError::EarlyEndOfScript))
        } else {
            let n = le_value(b.subrange(1, 1 + w)) as int;
            if b.len() < 1 + w + n {
                Err(ErrorView::Script(ScriptError::EarlyEndOfScript))
            } else if n < pushdata_min(op) {
                Err(ErrorView::InvalidPush(b.subrange(1 + w, 1 + w + n)))
            } else {
                Err(ErrorView::Script(ScriptError::NumericOverflow))
            }
        }
    } else if 0x51 <= op <= 0x60 {
        Ok((Token::Number((op - 0x50) as u32), 1))
    } else {
        match token_of_op(op) {
            Some(t) => Ok((t, 1)),
            None => Err(ErrorView::InvalidOpcode(op)),
        }
    }
}

/// The token sequence of a script, or the error at its first bad instruction.
pub open spec fn lex_spec(b: Seq<u8>) -> Result<Seq<Token>, ErrorView>
    decreases b.len(),
{
    if b.len() == 0 {
        Ok(seq![])
    } else {
        match instr(b) {
            Err(e) => Err(e),
            Ok((t, n)) => if 0 < n <= b.len() {
                match lex_spec(b.skip(n as int)) {
                    Ok(ts) => Ok(seq![t] + ts),
                    Err(e) => Err(e),
                }
            } else {
                Err(ErrorView::UnexpectedStart)
            },
        }
    }
}

/// Puts `ts` in front of the tokens of a lexing outcome.
pub open spec fn prepend(ts: Seq<Token>, r: Result<Seq<Token>, ErrorView>) -> Result<Seq<Token>, ErrorView> {
    match r {
        Ok(rest) => Ok(ts + rest),
        Err(e) => Err(e),
    }
}

/// The bare opcode token of an opcode byte.
fn op_token(op: u8) -> (r: Option<Token>)
    ensures
        r == token_of_op(op),
{
    if op == 0x9a { Some(Token::BoolAnd) }
    else if op == 0x9b { Some(Token::BoolOr) }
    else if op == 0x93 { Some(Token::Add) }
    else if op == 0x87 { Some(Token::Equal) }
    else if op == 0x88 { Some(Token::EqualVerify) }
    else if op == 0xac { Some(Token::CheckSig) }
    else if op == 0xad { Some(Token::CheckSigVerify) }
    else if op == 0xae { Some(Token::CheckMultiSig) }
    else if op == 0xaf { Some(Token::CheckMultiSigVerify) }
    else if op == 0xb2 { Some(Token::CheckSequenceVerify) }
    else if op == 0x6c { Some(Token::FromAltStack) }
    else if op == 0x6b { Some(Token::ToAltStack) }
    else if op == 0x75 { Some(Token::Drop) }
    else if op == 0x76 { Some(Token::Dup) }
    else if op == 0x63 { Some(Token::If) }
    else if op == 0x73 { Some(Token::IfDup) }
    else if op == 0x64 { Some(Token::NotIf) }
    else if op == 0x67 { Some(Token::Else) }
    else if op == 0x68 { Some(Token::EndIf) }
    else if op == 0x82 { Some(Token::Size) }
    else if op == 0x7c { Some(Token::Swap) }
    else if op == 0x7d { Some(Token::Tuck) }
    else if op == 0x69 { Some(Token::Verify) }
    else if op == 0xa9 { Some(Token::Hash160) }
    else if op == 0xa8 { Some(Token::Sha256) }
    else { None }
}

/// The token of the data push of `len` bytes of `b` from `start` on.
fn read_push(b: &[u8], start: usize, len: usize) -> (r: Result<Token, Error>)
    requires
        start + len <= b@.len(),
    ensures
        match push_token(b@.subrange(start as int, start + len)) {
            Ok(t) => r == Ok::<Token, Error>(t),
            Err(e) => r is Err && r->Err_0@ == e,
        },
{
    let ghost d = b@.subrange(start as int, start + len);
    if len == 20 {
        Ok(Token::Hash160Hash(Hash160 { bytes: copy_at::<20>(b, start) }))
    } else if len == 32 {
        Ok(Token::Sha256Hash(Sha256dHash { bytes: copy_at::<32>(b, start) }))
    } else if len == 33 {
        let bytes = copy_at::<33>(b, start);
        if parse_pubkey(bytes.as_slice()) {
            Ok(Token::Pubkey(PublicKey { bytes }))
        } else {
            Err(Error::BadPubkey(vec_at(b, start, len)))
        }
    } else if len > 4 {
        Err(Error::Script(ScriptError::NumericOverflow))
    } else {
        let data = vec_at(b, start, len);
        let v = read_le(data.as_slice());
        let mut enc: Vec<u8> = Vec::new();
        push_script_num(v, &mut enc);
        assert(enc@ =~= script_num(v as nat));
        if v > 16 && eq_at(enc.as_slice(), b, start) && enc.len() == len {
            assert(enc@ == d);
            Ok(Token::Number(v as u32))
        } else {
            Err(Error::InvalidPush(data))
        }
    }
}

/// Decodes the instruction of `b` at `pos`.
fn read_instr(b: &[u8], pos: usize) -> (r: Result<(Token, usize), Error>)
    requires
        pos < b@.len(),
    ensures
        match instr(b@.skip(pos as int)) {
            Ok((t, n)) => r is Ok && r->Ok_0.0 == t && r->Ok_0.1 as nat == n,
            Err(e) => r is Err && r->Err_0@ == e,
        },
{
    let ghost s = b@.skip(pos as int);
    let op = b[pos];
    let rem = b.len() - pos;
    assert(s[0] == op);
    if op == 0 {
        Ok((Token::Number(0), 1))
    } else if op <= 0x4b {
        if rem < 1 + op as usize {
            Err(Error::Script(ScriptError::EarlyEndOfScript))
        } else {
            assert(s.subrange(1, 1 + op) =~= b@.subrange(pos + 1, pos + 1 + op));
            match read_push(b, pos + 1, op as usize) {
                Ok(t) => Ok((t, 1 + op as usize)),
                Err(e) => Err(e),
            }
        }
    } else if op == 0x4c || op == 0x4d || op == 0x4e {
        let w: usize = if op == 0x4c {
            1
        } else if op == 0x4d {
            2
        } else {
            4
        };
        if rem < 1 + w {
            Err(Error::Script(ScriptError::EarlyEndOfScript))
        } else {
            let lenb = vec_at(b, pos + 1, w);
            assert(s.subrange(1, 1 + w as int) =~= lenb@);
            let n = read_le(lenb.as_slice());
            if ((rem - 1 - w) as u64) < n {
                Err(Error::Script(ScriptError::EarlyEndOfScript))
            } else {
                let min: u64 = if op == 0x4c {
                    76
                } else if op == 0x4d {
                    256
                } else {
                    65536
                };
                if n < min {
                    let data = vec_at(b, pos + 1 + w, n as usize);
                    assert(s.subrange(1 + w as int, 1 + w + n) =~= data@);
                    Err(Error::InvalidPush(data))
                } else {
                    Err(Error::Script(ScriptError::NumericOverflow))
                }
            }
        }
    } else if 0x51 <= op && op <= 0x60 {
        Ok((Token::Number((op - 0x50) as u32), 1))
    } else {
        match op_token(op) {
            Some(t) => Ok((t, 1)),
            None => Err(Error::InvalidOpcode(op)),
        }
    }
}

/// Tokenize a script
pub fn lex(script: &[u8]) -> (r: Result<Vec<Token>, Error>)
    ensures
        match lex_spec(script@) {
            Ok(ts) => r is Ok && r->Ok_0@ == ts,
            Err(e) => r is Err && r->Err_0@ == e,
        },
{
    let mut ret: Vec<Token> = Vec::new();
    let mut pos: usize = 0;
    proof {
        assert(script@.skip(0) =~= script@);
        match lex_spec(script@) {
            Ok(ts) => assert(Seq::<Token>::empty() + ts =~= ts),
            Err(_) => {},
        }
    }
    while pos < script.len()
        invariant
            pos <= script@.len(),
            lex_spec(script@) == prepend(ret@, lex_spec(script@.skip(pos as int))),
        decreases script@.len() - pos,
    {
        let ghost s = script@.skip(pos as int);
        match read_instr(script, pos) {
            Ok((tok, n)) => {
                proof {
                    lemma_instr_len(s);
                    assert(s.skip(n as int) =~= script@.skip(pos + n));
                    assert(ret@.push(tok) =~= ret@ + seq![tok]);
                    match lex_spec(s.skip(n as int)) {
                        Ok(rest) => assert(ret@ + (seq![tok] + rest) =~= ret@.push(tok) + rest),
                        Err(_) => {},
                    }
                }
                ret.push(tok);
                pos = pos + n;
            },
            Err(e) => {
                return Err(e);
            },
        }
    }
    assert(script@.skip(pos as int) =~= Seq::<u8>::empty());
    assert(ret@ + Seq::<Token>::empty() =~= ret@);
    Ok(ret)
}

/// A decoded instruction takes at least one byte and no more than the script holds.
pub proof fn lemma_instr_len(b: Seq<u8>)
    requires
        b.len() > 0,
    ensures
        instr(b) matches Ok((t, n)) ==> 0 < n <= b.len(),
{
}

/// A decoded instruction serialises back to the bytes it was read from.
pub proof fn lemma_instr_sound(b: Seq<u8>)
    requires
        b.len() > 0,
        instr(b) is Ok,
    ensures
        token_bytes(instr(b)->Ok_0.0) == b.subrange(0, instr(b)->Ok_0.1 as int),
{
    let op = b[0];
    let (t, n) = instr(b)->Ok_0;
    if op == 0 {
        assert(b.subrange(0, 1) =~= seq![0u8]);
    } else if op <= 0x4b {
        let d = b.subrange(1, 1 + op);
        assert(b.subrange(0, n as int) =~= seq![op] + d);
        if d.len() == 20 {
            lemma_array_of::<20>(d);
        } else if d.len() == 32 {
            lemma_array_of::<32>(d);
        } else if d.len() == 33 {
            lemma_array_of::<33>(d);
        } else {
            lemma_le_value_bound(d);
            assert(push_int(le_value(d)) == push_data(d));
        }
    } else if 0x51 <= op <= 0x60 {
        assert(b.subrange(0, 1) =~= seq![op]);
    } else {
        assert(b.subrange(0, 1) =~= seq![op]);
    }
}

/// A single token serialises to its own bytes.
pub proof fn lemma_flat_bytes_one(t: Token)
    ensures
        flat_bytes(seq![t]) == token_bytes(t),
{
    assert(seq![t].drop_last() =~= Seq::<Token>::empty());
    assert(seq![t].last() == t);
    assert(flat_bytes(Seq::<Token>::empty()) =~= Seq::<u8>::empty());
    assert(flat_bytes(seq![t]) =~= token_bytes(t));
}

/// Lexing is sound: the tokens of a script serialise back to the script.
pub proof fn lemma_lex_sound(b: Seq<u8>)
    requires
        lex_spec(b) is Ok,
    ensures
        flat_bytes(lex_spec(b)->Ok_0) == b,
    decreases b.len(),
{
    if b.len() == 0 {
        assert(flat_bytes(lex_spec(b)->Ok_0) =~= b);
    } else {
        let (t, n) = instr(b)->Ok_0;
        lemma_instr_sound(b);
        lemma_lex_sound(b.skip(n as int));
        let rest = lex_spec(b.skip(n as int))->Ok_0;
        lemma_flat_bytes_append(seq![t], rest);
        assert(flat_bytes(seq![t]) =~= token_bytes(t)) by {
            lemma_flat_bytes_one(t);
        }
        assert(b.subrange(0, n as int) + b.skip(n as int) =~= b);
    }
}

/// The first instruction of a script is decoded from its own bytes alone.
proof fn lemma_instr_prefix(p: Seq<u8>, q: Seq<u8>)
    requires
        p.len() > 0,
        instr(p) is Ok,
    ensures
        instr(p + q) == instr(p),
        instr(p)->Ok_0.1 <= p.len(),
{
    let op = p[0];
    assert((p + q)[0] == op);
    if 0 < op <= 0x4b {
        assert((p + q).subrange(1, 1 + op) =~= p.subrange(1, 1 + op));
    }
}

/// Lexing a script that starts with a well-formed part lexes that part first.
pub proof fn lemma_lex_append(p: Seq<u8>, q: Seq<u8>)
    requires
        lex_spec(p) is Ok,
    ensures
        lex_spec(p + q) == prepend(lex_spec(p)->Ok_0, lex_spec(q)),
    decreases p.len(),
{
    if p.len() == 0 {
        assert(p + q =~= q);
        match lex_spec(q) {
            Ok(ts) => assert(Seq::<Token>::empty() + ts =~= ts),
            Err(_) => {},
        }
    } else {
        lemma_instr_prefix(p, q);
        let (t, n) = instr(p)->Ok_0;
        assert((p + q).skip(n as int) =~= p.skip(n as int) + q);
        lemma_lex_append(p.skip(n as int), q);
        match lex_spec(q) {
            Ok(ts) => {
                let rest = lex_spec(p.skip(n as int))->Ok_0;
                assert(seq![t] + (rest + ts) =~= (seq![t] + rest) + ts);
            },
            Err(_) => {},
        }
    }
}

/// Any integer push that is not the minimal encoding of its value is refused
/// with `InvalidPush`, wherever it stands after a well-formed part of a script.
pub proof fn lemma_nonminimal_push_rejected(p: Seq<u8>, d: Seq<u8>, q: Seq<u8>)
    requires
        lex_spec(p) is Ok,
        1 <= d.len() <= 4,
        !is_minimal_num(d),
    ensures
        lex_spec(p + (seq![d.len() as u8] + d + q)) == Err::<Seq<Token>, ErrorView>(ErrorView::InvalidPush(d)),
{
    let b = seq![d.len() as u8] + d + q;
    lemma_lex_append(p, b);
    assert(b.subrange(1, 1 + d.len() as int) =~= d);
    assert(b[0] == d.len() as u8);
}

/// A bare opcode token is determined by its opcode byte.
pub proof fn lemma_op_token(t: Token)
    requires
        is_op(t),
    ensures
        token_of_op(op_byte(t)) == Some(t),
{
}

/// A token that the lexer can produce: a number whose encoding fits in four
/// bytes, a key on the curve, or any other token.
pub open spec fn lexable(t: Token) -> bool {
    match t {
        Token::Number(n) => script_num(n as nat).len() <= 4,
        Token::Pubkey(pk) => is_pubkey(pk.bytes@),
        _ => true,
    }
}

proof fn lemma_lex_one(t: Token)
    requires
        lexable(t),
    ensures
        lex_spec(token_bytes(t)) == Ok::<Seq<Token>, ErrorView>(seq![t]),
{
    let b = token_bytes(t);
    match t {
        Token::Number(n) => {
            if n > 16 {
                lemma_script_num_minimal(n as nat);
                lemma_script_num_len(n as nat);
                let d = script_num(n as nat);
                assert(b.subrange(1, 1 + d.len() as int) =~= d);
                assert(push_token(d) == Ok::<Token, ErrorView>(t));
            }
        },
        Token::Hash160Hash(h) => {
            lemma_array_of_view::<20>(h.bytes);
            assert(b.subrange(1, 21) =~= h.bytes@);
        },
        Token::Sha256Hash(h) => {
            lemma_array_of_view::<32>(h.bytes);
            assert(b.subrange(1, 33) =~= h.bytes@);
        },
        Token::Pubkey(pk) => {
            lemma_array_of_view::<33>(pk.bytes);
            assert(b.subrange(1, 34) =~= pk.bytes@);
        },
        _ => {
            lemma_op_token(t);
        },
    }
    assert(instr(b) == Ok::<(Token, nat), ErrorView>((t, b.len())));
    assert(b.skip(b.len() as int) =~= Seq::<u8>::empty());
    assert(lex_spec(b.skip(b.len() as int)) == Ok::<Seq<Token>, ErrorView>(Seq::<Token>::empty()));
    assert(seq![t] + Seq::<Token>::empty() =~= seq![t]);
}

/// Lexing is complete: the bytes of a sequence of tokens that the lexer can
/// produce lex back to exactly those tokens.
pub proof fn lemma_lex_complete(ts: Seq<Token>)
    requires
        forall|i: int| 0 <= i < ts.len() ==> lexable(#[trigger] ts[i]),
    ensures
        lex_spec(flat_bytes(ts)) == Ok::<Seq<Token>, ErrorView>(ts),
    decreases ts.len(),
{
    if ts.len() == 0 {
        assert(flat_bytes(ts) =~= Seq::<u8>::empty());
        assert(ts =~= Seq::<Token>::empty());
    } else {
        let init = ts.drop_last();
        assert forall|i: int| 0 <= i < init.len() implies lexable(#[trigger] init[i]) by {
            assert(init[i] == ts[i]);
        }
        lemma_lex_complete(init);
        assert(lexable(ts[ts.len() - 1]));
        lemma_lex_one(ts.last());
        lemma_lex_append(flat_bytes(init), token_bytes(ts.last()));
        assert(init + seq![ts.last()] =~= ts);
    }
}

} // verus!
