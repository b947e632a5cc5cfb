use base64::Engine;
use vstd::prelude::*;
use vstd::utf8::decode_utf8;
use vstd::utf8::valid_utf8;

verus! {

/// The character that stands for six bits.
pub open spec fn symbol(value: int) -> char {
    if value < 26 {
        ('A' as int + value) as char
    } else if value < 52 {
        ('a' as int + (value - 26)) as char
    } else if value < 62 {
        ('0' as int + (value - 52)) as char
    } else if value == 62 {
        '+'
    } else {
        '/'
    }
}

/// Bytes in base64, with the standard alphabet and padding.
pub open spec fn base64_text(bytes: Seq<u8>) -> Seq<char>
    decreases bytes.len(),
{
    let a = bytes[0] as int;
    let b = bytes[1] as int;
    let c = bytes[2] as int;
    if bytes.len() == 0 {
        Seq::empty()
    } else if bytes.len() == 1 {
        seq![symbol(a / 4), symbol(a % 4 * 16), '=', '=']
    } else if bytes.len() == 2 {
        seq![symbol(a / 4), symbol(a % 4 * 16 + b / 16), symbol(b % 16 * 4), '=']
    } else {
        seq![
            symbol(a / 4),
            symbol(a % 4 * 16 + b / 16),
            symbol(b % 16 * 4 + c / 64),
            symbol(c % 64),
        ] + base64_text(bytes.skip(3))
    }
}

/// The bytes that a text is the base64 form of, if it is one.
pub open spec fn base64_value(text: Seq<char>) -> Option<Seq<u8>> {
    if exists|bytes: Seq<u8>| #[trigger] base64_text(bytes) == text {
        Some(choose|bytes: Seq<u8>| #[trigger] base64_text(bytes) == text)
    } else {
        None
    }
}

/// What the base64 decoder says of a text that it refuses.
pub uninterp spec fn base64_fault(text: Seq<char>) -> Seq<char>;

/// `Engine::encode` of `base64`, with the engine `STANDARD`: the standard
/// alphabet, always padded. A text of more than `isize::MAX` bytes could not
/// be allocated.
#[verifier::external_body]
pub(crate) fn encode_base64(bytes: &[u8]) -> (r: String)
    requires
        bytes@.len() <= usize::MAX / 4,
    ensures
        r@ == base64_text(bytes@),
{
    base64::engine::general_purpose::STANDARD.encode(bytes)
}

/// `Engine::decode` of `base64`, with the engine `STANDARD`. It takes exactly
/// the texts that `encode` writes: the padding has to be there and the bits
/// that no byte uses have to be zero. The text of the error is a function of
/// the input.
#[verifier::external_body]
fn decode_standard(text: &str) -> (r: Result<Vec<u8>, String>)
    ensures
        match r {
            Ok(bytes) => base64_text(bytes@) == text@,
            Err(e) => (forall|bytes: Seq<u8>| #[trigger] base64_text(bytes) != text@) && e@
                == base64_fault(text@),
        },
{
    base64::engine::general_purpose::STANDARD.decode(text).map_err(|e| e.to_string())
}

/// `String::from_utf8`: the text of the bytes where they are valid UTF-8.
#[verifier::external_body]
pub(crate) fn utf8_text(bytes: Vec<u8>) -> (r: Option<String>)
    ensures
        match r {
            Some(s) => valid_utf8(bytes@) && s@ == decode_utf8(bytes@),
            None => !valid_utf8(bytes@),
        },
{
    String::from_utf8(bytes).ok()
}

/// Reads base64; a refusal says what is wrong.
pub fn decode_base64(text: &str) -> (r: Result<Vec<u8>, String>)
    ensures
        match r {
            Ok(bytes) => base64_value(text@) == Some(bytes@),
            Err(e) => base64_value(text@) is None && e@ == base64_fault(text@),
        },
{
    let r = decode_standard(text);
    proof {
        if r is Ok {
            law_base64_reads_back(r->Ok_0@);
        }
    }
    r
}

/// The text inside a base64 form, where there is valid text in it.
pub open spec fn base64_string(text: Seq<char>) -> Option<Seq<char>> {
    match base64_value(text) {
        Some(bytes) => if valid_utf8(bytes) {
            Some(decode_utf8(bytes))
        } else {
            None
        },
        None => None,
    }
}

/// Reads a text in base64.
pub fn decode_base64_string(text: &str) -> (r: Option<String>)
    ensures
        crate::text::list::text_of(r) == base64_string(text@),
{
    match decode_base64(text) {
        Ok(bytes) => utf8_text(bytes),
        Err(_) => None,
    }
}

proof fn lemma_symbol(a: int, b: int)
    requires
        0 <= a < 64,
        0 <= b < 64,
    ensures
        symbol(a) == symbol(b) ==> a == b,
        symbol(a) != '=',
{
}

proof fn lemma_base64_is_injective(a: Seq<u8>, b: Seq<u8>)
    requires
        base64_text(a) == base64_text(b),
    ensures
        a == b,
    decreases a.len(),
{
    let t = base64_text(a);
    let u = base64_text(b);
    if a.len() == 0 || b.len() == 0 {
        assert(t.len() == 0 && u.len() == 0);
        assert(a =~= b);
    } else {
        assert(t[0] == symbol(a[0] as int / 4));
        assert(u[0] == symbol(b[0] as int / 4));
        lemma_symbol(a[0] as int / 4, b[0] as int / 4);
        let a1 = if a.len() == 1 {
            a[0] as int % 4 * 16
        } else {
            a[0] as int % 4 * 16 + a[1] as int / 16
        };
        let b1 = if b.len() == 1 {
            b[0] as int % 4 * 16
        } else {
            b[0] as int % 4 * 16 + b[1] as int / 16
        };
        assert(t[1] == symbol(a1));
        assert(u[1] == symbol(b1));
        lemma_symbol(a1, b1);
        assert(a[0] == b[0]);
        let a2 = if a.len() == 2 {
            a[1] as int % 16 * 4
        } else {
            a[1] as int % 16 * 4 + a[2] as int / 64
        };
        let b2 = if b.len() == 2 {
            b[1] as int % 16 * 4
        } else {
            b[1] as int % 16 * 4 + b[2] as int / 64
        };
        assert(t[2] == if a.len() == 1 {
            '='
        } else {
            symbol(a2)
        });
        assert(u[2] == if b.len() == 1 {
            '='
        } else {
            symbol(b2)
        });
        if a.len() > 1 {
            lemma_symbol(a2, a2);
        }
        if b.len() > 1 {
            lemma_symbol(b2, b2);
        }
        if a.len() > 1 && b.len() > 1 {
            lemma_symbol(a2, b2);
            assert(a[1] == b[1]);
            assert(t[3] == if a.len() == 2 {
                '='
            } else {
                symbol(a[2] as int % 64)
            });
            assert(u[3] == if b.len() == 2 {
                '='
            } else {
                symbol(b[2] as int % 64)
            });
            if a.len() > 2 {
                lemma_symbol(a[2] as int % 64, a[2] as int % 64);
            }
            if b.len() > 2 {
                lemma_symbol(b[2] as int % 64, b[2] as int % 64);
            }
            if a.len() > 2 && b.len() > 2 {
                lemma_symbol(a[2] as int % 64, b[2] as int % 64);
                assert(a[2] == b[2]);
                assert(t.skip(4) =~= base64_text(a.skip(3)));
                assert(u.skip(4) =~= base64_text(b.skip(3)));
                lemma_base64_is_injective(a.skip(3), b.skip(3));
                assert(a =~= seq![a[0], a[1], a[2]] + a.skip(3));
                assert(b =~= seq![b[0], b[1], b[2]] + b.skip(3));
            } else {
                assert(a =~= b);
            }
        } else {
            assert(a =~= b);
        }
    }
}

/// Bytes read back as they were written.
pub proof fn law_base64_reads_back(bytes: Seq<u8>)
    ensures
        base64_value(base64_text(bytes)) == Some(bytes),
{
    let text = base64_text(bytes);
    let chosen = choose|b: Seq<u8>| #[trigger] base64_text(b) == text;
    lemma_base64_is_injective(chosen, bytes);
}

/// A base64 form holds no white space, and is empty only for no bytes.
pub proof fn lemma_base64_text(bytes: Seq<u8>)
    ensures
        bytes.len() > 0 ==> base64_text(bytes).len() > 0,
        forall|i: int|
            0 <= i < base64_text(bytes).len() ==> !crate::text::chars::is_white_space(
                #[trigger] base64_text(bytes)[i],
            ),
    decreases bytes.len(),
{
    if bytes.len() > 2 {
        lemma_base64_text(bytes.skip(3));
        let tail = base64_text(bytes.skip(3));
        assert forall|i: int| 4 <= i < base64_text(bytes).len() implies base64_text(bytes)[i]
            == tail[i - 4] by {}
    }
}

/// A text in base64 reads back as it was written.
pub proof fn law_base64_string_reads_back(text: Seq<char>)
    ensures
        base64_string(base64_text(vstd::utf8::encode_utf8(text))) == Some(text),
{
    law_base64_reads_back(vstd::utf8::encode_utf8(text));
    vstd::utf8::encode_utf8_valid_utf8(text);
    vstd::utf8::encode_utf8_decode_utf8(text);
}

/// One of the 64 signs of the alphabet.
pub open spec fn is_symbol(c: char) -> bool {
    exists|v: int| 0 <= v < 64 && c == #[trigger] symbol(v)
}

/// How many padding signs end the base64 form of so many bytes.
pub open spec fn padding(n: nat) -> int {
    if n % 3 == 0 {
        0
    } else {
        3 - n % 3
    }
}

/// The base64 form has four signs for every three bytes begun, padding signs
/// at its end for the bytes that are missing there, and otherwise signs of the
/// alphabet.
pub proof fn law_base64_shape(bytes: Seq<u8>)
    ensures
        base64_text(bytes).len() == (bytes.len() + 2) / 3 * 4,
        forall|i: int|
            0 <= i < base64_text(bytes).len() - padding(bytes.len()) ==> is_symbol(
                #[trigger] base64_text(bytes)[i],
            ),
        forall|i: int|
            base64_text(bytes).len() - padding(bytes.len()) <= i < base64_text(bytes).len()
                ==> #[trigger] base64_text(bytes)[i] == '=',
    decreases bytes.len(),
{
    let t = base64_text(bytes);
    if bytes.len() > 0 {
        let a = bytes[0] as int;
        assert(t[0] == symbol(a / 4));
        assert(is_symbol(t[0]));
        if bytes.len() == 1 {
            assert(t[1] == symbol(a % 4 * 16));
            assert(is_symbol(t[1]));
        } else {
            let b = bytes[1] as int;
            assert(t[1] == symbol(a % 4 * 16 + b / 16));
            assert(is_symbol(t[1]));
            if bytes.len() == 2 {
                assert(t[2] == symbol(b % 16 * 4));
                assert(is_symbol(t[2]));
            } else {
                let c = bytes[2] as int;
                assert(t[2] == symbol(b % 16 * 4 + c / 64));
                assert(t[3] == symbol(c % 64));
                assert(is_symbol(t[2]) && is_symbol(t[3]));
                let rest = bytes.skip(3);
                law_base64_shape(rest);
                let u = base64_text(rest);
                assert(padding(rest.len()) == padding(bytes.len()));
                assert forall|i: int| 0 <= i < t.len() - padding(bytes.len()) implies is_symbol(
                    #[trigger] t[i],
                ) by {
                    if i >= 4 {
                        assert(t[i] == u[i - 4]);
                    }
                }
                assert forall|i: int|
                    t.len() - padding(bytes.len()) <= i < t.len() implies #[trigger] t[i]
                    == '=' by {
                    assert(t[i] == u[i - 4]);
                }
            }
        }
    }
}

/// The signs of the alphabet are the letters, the digits, the plus sign and
/// the slash.
pub proof fn lemma_is_symbol(c: char)
    ensures
        is_symbol(c) <==> ('A' <= c <= 'Z' || 'a' <= c <= 'z' || '0' <= c <= '9' || c == '+' || c
            == '/'),
{
    if 'A' <= c <= 'Z' {
        assert(c == symbol(c as int - 'A' as int));
    } else if 'a' <= c <= 'z' {
        assert(c == symbol(c as int - 'a' as int + 26));
    } else if '0' <= c <= '9' {
        assert(c == symbol(c as int - '0' as int + 52));
    } else if c == '+' {
        assert(c == symbol(62));
    } else if c == '/' {
        assert(c == symbol(63));
    }
}

} // verus!
