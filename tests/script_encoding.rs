use bitcoin::script::{read_scriptint, Builder};
use script_descriptor::{lex, Error, ScriptError, Token};

fn numbers() -> Vec<u32> {
    let mut v: Vec<u32> = (0..=600).collect();
    v.extend([921, 10000, 0x7fff, 0x8000, 0xffff, 0x1_0000, 0x7f_ffff, 0x80_0000, 0xff_ffff, 0x7fff_ffff, 0x8000_0000, u32::MAX]);
    v
}

#[test]
fn number_pushes_match_the_script_builder() {
    for n in numbers() {
        let ours = Token::Number(n).to_bytes();
        let theirs = Builder::new().push_int(n as i64).into_bytes();
        assert_eq!(ours, theirs, "push of {}", n);
    }
}

#[test]
fn lexed_numbers_round_trip() {
    for n in numbers() {
        let bytes = Token::Number(n).to_bytes();
        if n < 0x8000_0000 {
            assert_eq!(lex(&bytes), Ok(vec![Token::Number(n)]), "lex of {}", n);
        } else {
            assert_eq!(lex(&bytes), Err(Error::Script(ScriptError::NumericOverflow)), "lex of {}", n);
        }
    }
}

fn check_push(d: &[u8]) {
    let mut script = vec![d.len() as u8];
    script.extend_from_slice(d);
    let expected = match read_scriptint(d) {
        Ok(v) if v > 16 => Ok(vec![Token::Number(v as u32)]),
        _ => Err(Error::InvalidPush(d.to_vec())),
    };
    assert_eq!(lex(&script), expected, "push of {:?}", d);
}

#[test]
fn integer_pushes_agree_with_read_scriptint() {
    for a in 0..=255u8 {
        check_push(&[a]);
        for b in 0..=255u8 {
            check_push(&[a, b]);
        }
    }
    for a in [0u8, 1, 0x7f, 0x80, 0xff] {
        for b in [0u8, 1, 0x7f, 0x80, 0xff] {
            for c in [0u8, 1, 0x7f, 0x80, 0xff] {
                check_push(&[a, b, c]);
                for d in [0u8, 1, 0x7f, 0x80, 0xff] {
                    check_push(&[a, b, c, d]);
                }
            }
        }
    }
}

#[test]
fn nonminimal_data_pushes_are_refused() {
    // OP_PUSHDATA1 and OP_PUSHDATA2 with short data
    assert_eq!(lex(&[0x4c, 0x02, 0x11, 0x22]), Err(Error::InvalidPush(vec![0x11, 0x22])));
    assert_eq!(lex(&[0x4d, 0x01, 0x00, 0x33]), Err(Error::InvalidPush(vec![0x33])));
    // truncated length fields and data
    assert_eq!(lex(&[0x4c]), Err(Error::Script(ScriptError::EarlyEndOfScript)));
    assert_eq!(lex(&[0x4e, 0x05, 0x00, 0x00, 0x00, 0x01]), Err(Error::Script(ScriptError::EarlyEndOfScript)));
    // a minimal long push is no number
    let mut long = vec![0x4c, 76];
    long.extend([1u8; 76]);
    assert_eq!(lex(&long), Err(Error::Script(ScriptError::NumericOverflow)));
}
