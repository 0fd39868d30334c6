//! Standard base64 with padding, as Engine.IO uses it to carry binary
//! data through the polling transport.

use vstd::prelude::*;

verus! {

/// The padding character `=`.
pub const PAD: u8 = 61;

/// The character of the standard alphabet that stands for `v`.
pub open spec fn b64_char(v: int) -> u8 {
    if v < 26 {
        (65 + v) as u8
    } else if v < 52 {
        (97 + (v - 26)) as u8
    } else if v < 62 {
        (48 + (v - 52)) as u8
    } else if v == 62 {
        43
    } else {
        47
    }
}

/// The value of a character of the standard alphabet; `-1` for any other
/// byte.
pub open spec fn b64_value(c: u8) -> int {
    if 65 <= c <= 90 {
        c - 65
    } else if 97 <= c <= 122 {
        c - 97 + 26
    } else if 48 <= c <= 57 {
        c - 48 + 52
    } else if c == 43 {
        62
    } else if c == 47 {
        63
    } else {
        -1
    }
}

/// The base64 text of `data`: four characters for every three bytes, the
/// last group padded with `=`.
pub open spec fn b64_encode(data: Seq<u8>) -> Seq<u8>
    decreases data.len(),
{
    if data.len() == 0 {
        Seq::empty()
    } else if data.len() == 1 {
        seq![b64_char((data[0] / 4) as int), b64_char((data[0] % 4) * 16), PAD, PAD]
    } else if data.len() == 2 {
        seq![
            b64_char((data[0] / 4) as int),
            b64_char((data[0] % 4) * 16 + data[1] / 16),
            b64_char((data[1] % 16) * 4),
            PAD,
        ]
    } else {
        seq![
            b64_char((data[0] / 4) as int),
            b64_char((data[0] % 4) * 16 + data[1] / 16),
            b64_char((data[1] % 16) * 4 + data[2] / 64),
            b64_char((data[2] % 64) as int),
        ] + b64_encode(data.skip(3))
    }
}

/// The bytes that a base64 text stands for. `None` when the length is no
/// multiple of four, a character is outside the alphabet, padding stands
/// anywhere but at the very end, or the bits behind the last byte are not
/// zero.
pub open spec fn b64_decode(text: Seq<u8>) -> Option<Seq<u8>>
    decreases text.len(),
{
    if text.len() == 0 {
        Some(Seq::empty())
    } else if text.len() < 4 {
        None
    } else {
        let a = b64_value(text[0]);
        let b = b64_value(text[1]);
        let c = b64_value(text[2]);
        let d = b64_value(text[3]);
        if a < 0 || b < 0 {
            None
        } else if text.len() == 4 && text[2] == PAD && text[3] == PAD {
            if b % 16 == 0 {
                Some(seq![(a * 4 + b / 16) as u8])
            } else {
                None
            }
        } else if c < 0 {
            None
        } else if text.len() == 4 && text[3] == PAD {
            if c % 4 == 0 {
                Some(seq![(a * 4 + b / 16) as u8, ((b % 16) * 16 + c / 4) as u8])
            } else {
                None
            }
        } else if d < 0 {
            None
        } else {
            match b64_decode(text.skip(4)) {
                Some(rest) => Some(
                    seq![
                        (a * 4 + b / 16) as u8,
                        ((b % 16) * 16 + c / 4) as u8,
                        ((c % 4) * 64 + d) as u8,
                    ] + rest,
                ),
                None => None,
            }
        }
    }
}

/// Every character of the alphabet has its own value, and none is the
/// padding character or the record separator.
pub proof fn lemma_b64_value_of_char(v: int)
    requires
        0 <= v < 64,
    ensures
        b64_value(b64_char(v)) == v,
        b64_char(v) != PAD,
        b64_char(v) != 0x1e,
{
}

/// Decoding undoes encoding.
pub proof fn lemma_b64_decode_encode(data: Seq<u8>)
    ensures
        b64_decode(b64_encode(data)) == Some(data),
        b64_encode(data).len() % 4 == 0,
        b64_encode(data).len() == 0 <==> data.len() == 0,
    decreases data.len(),
{
    let text = b64_encode(data);
    if data.len() == 0 {
    } else if data.len() == 1 {
        lemma_b64_value_of_char((data[0] / 4) as int);
        lemma_b64_value_of_char((data[0] % 4) * 16);
        assert(b64_decode(text)->0 =~= data);
    } else if data.len() == 2 {
        lemma_b64_value_of_char((data[0] / 4) as int);
        lemma_b64_value_of_char((data[0] % 4) * 16 + data[1] / 16);
        lemma_b64_value_of_char((data[1] % 16) * 4);
        assert(b64_decode(text)->0 =~= data);
    } else {
        lemma_b64_value_of_char((data[0] / 4) as int);
        lemma_b64_value_of_char((data[0] % 4) * 16 + data[1] / 16);
        lemma_b64_value_of_char((data[1] % 16) * 4 + data[2] / 64);
        lemma_b64_value_of_char((data[2] % 64) as int);
        lemma_b64_decode_encode(data.skip(3));
        assert(text.skip(4) =~= b64_encode(data.skip(3)));
        assert(text.len() >= 4);
        assert(text[3] != PAD);
        assert(b64_decode(text)->0 =~= data);
    }
}

/// Base64 text holds no record separator.
pub proof fn lemma_b64_no_separator(data: Seq<u8>)
    ensures
        !b64_encode(data).contains(0x1e),
    decreases data.len(),
{
    let text = b64_encode(data);
    if data.len() == 0 {
    } else if data.len() == 1 {
        lemma_b64_value_of_char((data[0] / 4) as int);
        lemma_b64_value_of_char((data[0] % 4) * 16);
    } else if data.len() == 2 {
        lemma_b64_value_of_char((data[0] / 4) as int);
        lemma_b64_value_of_char((data[0] % 4) * 16 + data[1] / 16);
        lemma_b64_value_of_char((data[1] % 16) * 4);
    } else {
        lemma_b64_value_of_char((data[0] / 4) as int);
        lemma_b64_value_of_char((data[0] % 4) * 16 + data[1] / 16);
        lemma_b64_value_of_char((data[1] % 16) * 4 + data[2] / 64);
        lemma_b64_value_of_char((data[2] % 64) as int);
        lemma_b64_no_separator(data.skip(3));
        let rest = b64_encode(data.skip(3));
        assert forall|i: int| 0 <= i < text.len() implies #[trigger] text[i] != 0x1e by {
            if i >= 4 {
                assert(text[i] == rest[i - 4]);
                assert(rest.contains(rest[i - 4]));
            }
        }
    }
}

fn char_of(v: u8) -> (c: u8)
    requires
        v < 64,
    ensures
        c == b64_char(v as int),
{
    if v < 26 {
        65 + v
    } else if v < 52 {
        97 + (v - 26)
    } else if v < 62 {
        48 + (v - 52)
    } else if v == 62 {
        43
    } else {
        47
    }
}

fn value_of(c: u8) -> (v: Option<u8>)
    ensures
        match v {
            Some(x) => b64_value(c) == x && x < 64,
            None => b64_value(c) == -1,
        },
{
    if 65 <= c && c <= 90 {
        Some(c - 65)
    } else if 97 <= c && c <= 122 {
        Some(c - 97 + 26)
    } else if 48 <= c && c <= 57 {
        Some(c - 48 + 52)
    } else if c == 43 {
        Some(62)
    } else if c == 47 {
        Some(63)
    } else {
        None
    }
}

/// Appends the base64 text of `data` to `out`.
pub fn encode_into(out: &mut Vec<u8>, data: &[u8])
    ensures
        final(out)@ == old(out)@ + b64_encode(data@),
{
    let mut i: usize = 0;
    assert(data@.skip(0) == data@);
    while data.len() - i >= 3
        invariant
            i <= data.len(),
            out@ + b64_encode(data@.skip(i as int)) == old(out)@ + b64_encode(data@),
        decreases data.len() - i,
    {
        let ghost rest = data@.skip(i as int);
        let ghost before = out@;
        let d0 = data[i];
        let d1 = data[i + 1];
        let d2 = data[i + 2];
        out.push(char_of(d0 / 4));
        out.push(char_of((d0 % 4) * 16 + d1 / 16));
        out.push(char_of((d1 % 16) * 4 + d2 / 64));
        out.push(char_of(d2 % 64));
        proof {
            assert(rest.skip(3) == data@.skip(i + 3));
            assert(out@ + b64_encode(rest.skip(3)) =~= before + b64_encode(rest));
        }
        i += 3;
    }
    let ghost rest = data@.skip(i as int);
    let ghost before = out@;
    if data.len() - i == 1 {
        let d0 = data[i];
        out.push(char_of(d0 / 4));
        out.push(char_of((d0 % 4) * 16));
        out.push(PAD);
        out.push(PAD);
        assert(out@ =~= before + b64_encode(rest));
    } else if data.len() - i == 2 {
        let d0 = data[i];
        let d1 = data[i + 1];
        out.push(char_of(d0 / 4));
        out.push(char_of((d0 % 4) * 16 + d1 / 16));
        out.push(char_of((d1 % 16) * 4));
        out.push(PAD);
        assert(out@ =~= before + b64_encode(rest));
    } else {
        assert(out@ =~= before + b64_encode(rest));
    }
}

/// Decodes base64 text; `None` exactly where [`b64_decode`] is `None`.
pub fn decode(text: &[u8]) -> (r: Option<Vec<u8>>)
    ensures
        match r {
            Some(data) => b64_decode(text@) == Some(data@),
            None => b64_decode(text@) is None,
        },
{
    let mut out: Vec<u8> = Vec::new();
    let mut i: usize = 0;
    assert(text@.skip(0) == text@);
    while i < text.len()
        invariant
            i <= text.len(),
            match b64_decode(text@.skip(i as int)) {
                Some(rest) => b64_decode(text@) == Some(out@ + rest),
                None => b64_decode(text@) is None,
            },
        decreases text.len() - i,
    {
        let ghost rest = text@.skip(i as int);
        let ghost before = out@;
        if text.len() - i < 4 {
            return None;
        }
        assert(rest[0] == text@[i as int] && rest[1] == text@[i + 1] && rest[2] == text@[i + 2]
            && rest[3] == text@[i + 3]);
        assert(rest.skip(4) == text@.skip(i + 4));
        let last = text.len() - i == 4;
        let a = match value_of(text[i]) {
            Some(v) => v,
            None => {
                return None;
            },
        };
        let b = match value_of(text[i + 1]) {
            Some(v) => v,
            None => {
                return None;
            },
        };
        if last && text[i + 2] == PAD && text[i + 3] == PAD {
            if b % 16 != 0 {
                return None;
            }
            out.push(a * 4 + b / 16);
            proof {
                assert(rest.skip(4).len() == 0);
                assert(out@ + Seq::<u8>::empty() =~= before + b64_decode(rest)->0);
            }
            i += 4;
            continue ;
        }
        let c = match value_of(text[i + 2]) {
            Some(v) => v,
            None => {
                return None;
            },
        };
        if last && text[i + 3] == PAD {
            if c % 4 != 0 {
                return None;
            }
            out.push(a * 4 + b / 16);
            out.push((b % 16) * 16 + c / 4);
            proof {
                assert(rest.skip(4).len() == 0);
                assert(out@ + Seq::<u8>::empty() =~= before + b64_decode(rest)->0);
            }
            i += 4;
            continue ;
        }
        let d = match value_of(text[i + 3]) {
            Some(v) => v,
            None => {
                return None;
            },
        };
        out.push(a * 4 + b / 16);
        out.push((b % 16) * 16 + c / 4);
        out.push((c % 4) * 64 + d);
        proof {
            match b64_decode(rest.skip(4)) {
                Some(tail) => {
                    assert(out@ + tail =~= before + b64_decode(rest)->0);
                },
                None => {},
            }
        }
        i += 4;
    }
    assert(out@ + Seq::<u8>::empty() =~= out@);
    Some(out)
}

} // verus!
