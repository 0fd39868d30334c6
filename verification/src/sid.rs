//! Session identifiers.

use vstd::prelude::*;

verus! {

/// Number of characters in the textual form of a [`Sid`].
pub const SID_LEN: usize = 16;

/// Exclusive upper bound of the numbers an identifier can hold: `64^16`.
pub const SID_LIMIT: u128 = 0x1_0000_0000_0000_0000_0000_0000;

/// An opaque session identifier. On the wire it is sixteen characters of
/// the URL-safe base64 alphabet, so it carries ninety-six bits.
#[derive(Clone, Copy, Debug, PartialEq, Eq, Structural, Hash)]
pub struct Sid {
    bits: u128,
}

/// The character of the URL-safe base64 alphabet that stands for `v`.
pub open spec fn url_char(v: nat) -> u8 {
    if v < 26 {
        (65 + v) as u8
    } else if v < 52 {
        (97 + (v - 26)) as u8
    } else if v < 62 {
        (48 + (v - 52)) as u8
    } else if v == 62 {
        45
    } else {
        95
    }
}

/// The value of a character of the URL-safe base64 alphabet; `None` for
/// any other byte.
pub open spec fn url_value(c: u8) -> Option<nat> {
    if 65 <= c <= 90 {
        Some((c - 65) as nat)
    } else if 97 <= c <= 122 {
        Some((c - 97 + 26) as nat)
    } else if 48 <= c <= 57 {
        Some((c - 48 + 52) as nat)
    } else if c == 45 {
        Some(62)
    } else if c == 95 {
        Some(63)
    } else {
        None
    }
}

/// `n` written with exactly `width` base-64 digits, most significant first.
pub open spec fn sid_text(n: nat, width: nat) -> Seq<u8>
    decreases width,
{
    if width == 0 {
        Seq::empty()
    } else {
        sid_text(n / 64, (width - 1) as nat).push(url_char(n % 64))
    }
}

/// The number that a string of base-64 digits denotes; `None` when a byte
/// is outside the alphabet.
pub open spec fn sid_number(text: Seq<u8>) -> Option<nat>
    decreases text.len(),
{
    if text.len() == 0 {
        Some(0)
    } else {
        match (sid_number(text.drop_last()), url_value(text.last())) {
            (Some(high), Some(low)) => Some(high * 64 + low),
            _ => None,
        }
    }
}

/// `64^width`.
pub open spec fn pow64(width: nat) -> nat
    decreases width,
{
    if width == 0 {
        1
    } else {
        64 * pow64((width - 1) as nat)
    }
}

/// `64^16` is the limit of the identifiers.
pub proof fn lemma_pow64_16()
    ensures
        pow64(16) == SID_LIMIT,
{
    reveal_with_fuel(pow64, 17);
}

/// A number written with `width` digits has `width` digits.
pub proof fn lemma_sid_text_len(n: nat, width: nat)
    ensures
        sid_text(n, width).len() == width,
    decreases width,
{
    if width > 0 {
        lemma_sid_text_len(n / 64, (width - 1) as nat);
    }
}

/// Reading back what was written gives the number again.
pub proof fn lemma_sid_number_of_text(n: nat, width: nat)
    requires
        n < pow64(width),
    ensures
        sid_number(sid_text(n, width)) == Some(n),
    decreases width,
{
    if width > 0 {
        let t = sid_text(n, width);
        assert(t.drop_last() == sid_text(n / 64, (width - 1) as nat));
        assert(t.last() == url_char(n % 64));
        assert(n / 64 < pow64((width - 1) as nat));
        lemma_sid_number_of_text(n / 64, (width - 1) as nat);
        assert(url_value(url_char(n % 64)) == Some(n % 64));
    }
}

/// Writing what was read gives the text again.
pub proof fn lemma_sid_text_of_number(text: Seq<u8>)
    requires
        sid_number(text) is Some,
    ensures
        sid_number(text)->0 < pow64(text.len()),
        sid_text(sid_number(text)->0, text.len()) == text,
    decreases text.len(),
{
    if text.len() > 0 {
        let high = sid_number(text.drop_last())->0;
        let low = url_value(text.last())->0;
        lemma_sid_text_of_number(text.drop_last());
        assert(low < 64);
        assert((high * 64 + low) / 64 == high);
        assert((high * 64 + low) % 64 == low);
        assert(url_char(low) == text.last());
        assert(sid_text(high * 64 + low, text.len()) == sid_text(
            high,
            (text.len() - 1) as nat,
        ).push(url_char(low)));
        assert(text.drop_last().push(text.last()) == text);
        assert(high * 64 + low < 64 * pow64((text.len() - 1) as nat)) by (nonlinear_arith)
            requires
                high < pow64((text.len() - 1) as nat),
                low < 64,
        ;
    } else {
        assert(sid_text(0, 0) == text);
    }
}

fn url_char_of(v: u8) -> (c: u8)
    requires
        v < 64,
    ensures
        c == url_char(v as nat),
{
    if v < 26 {
        65 + v
    } else if v < 52 {
        97 + (v - 26)
    } else if v < 62 {
        48 + (v - 52)
    } else if v == 62 {
        45
    } else {
        95
    }
}

fn url_value_of(c: u8) -> (v: Option<u8>)
    ensures
        match v {
            Some(x) => url_value(c) == Some(x as nat) && x < 64,
            None => url_value(c) is None,
        },
{
    if 65 <= c && c <= 90 {
        Some(c - 65)
    } else if 97 <= c && c <= 122 {
        Some(c - 97 + 26)
    } else if 48 <= c && c <= 57 {
        Some(c - 48 + 52)
    } else if c == 45 {
        Some(62)
    } else if c == 95 {
        Some(63)
    } else {
        None
    }
}

fn push_base64(out: &mut Vec<u8>, n: u128, width: usize)
    ensures
        final(out)@ == old(out)@ + sid_text(n as nat, width as nat),
    decreases width,
{
    if width > 0 {
        push_base64(out, n / 64, width - 1);
        out.push(url_char_of((n % 64) as u8));
    }
    assert(out@ == old(out)@ + sid_text(n as nat, width as nat));
}

impl Sid {
    #[verifier::type_invariant]
    spec fn in_range(self) -> bool {
        self.bits < SID_LIMIT
    }

    /// The number behind the identifier, below `64^16`.
    pub closed spec fn value(self) -> nat {
        self.bits as nat
    }

    /// The sixteen characters that stand for the identifier.
    pub open spec fn text(self) -> Seq<u8> {
        sid_text(self.value(), SID_LEN as nat)
    }

    /// The identifier that `text` names, if it names one: `text` must be
    /// sixteen characters of the alphabet.
    pub closed spec fn named(text: Seq<u8>) -> Option<Sid> {
        if text.len() == SID_LEN && sid_number(text) is Some {
            Some(Sid { bits: sid_number(text)->0 as u128 })
        } else {
            None
        }
    }

    /// An identifier is named by its text, and by no other.
    pub proof fn lemma_named(self)
        requires
            self.value() < SID_LIMIT,
        ensures
            Sid::named(self.text()) == Some(self),
            forall|text: Seq<u8>| Sid::named(text) == Some(self) ==> text == self.text(),
    {
        lemma_pow64_16();
        lemma_sid_text_len(self.bits as nat, 16);
        lemma_sid_number_of_text(self.bits as nat, 16);
        assert forall|text: Seq<u8>| Sid::named(text) == Some(self) implies text
            == self.text() by {
            lemma_sid_text_of_number(text);
        }
    }

    /// Makes an identifier from the low ninety-six bits of `bits`.
    pub fn new(bits: u128) -> (sid: Sid)
        ensures
            sid.value() == bits as nat % (SID_LIMIT as nat),
    {
        Sid { bits: bits % SID_LIMIT }
    }

    /// The number behind the identifier.
    pub fn to_bits(&self) -> (bits: u128)
        ensures
            bits == self.value(),
            bits < SID_LIMIT,
            Sid::named(self.text()) == Some(*self),
    {
        proof {
            use_type_invariant(self);
            self.lemma_named();
        }
        self.bits
    }

    /// Renders the identifier as sixteen URL-safe base64 characters.
    pub fn to_text(&self) -> (out: Vec<u8>)
        ensures
            out@ == self.text(),
            out@.len() == SID_LEN,
    {
        let mut out: Vec<u8> = Vec::new();
        push_base64(&mut out, self.bits, SID_LEN);
        proof {
            lemma_sid_text_len(self.bits as nat, SID_LEN as nat);
        }
        out
    }

    /// Reads an identifier from its textual form. Anything but sixteen
    /// characters of the alphabet is refused.
    pub fn parse(text: &[u8]) -> (r: Option<Sid>)
        ensures
            r == Sid::named(text@),
            r is Some <==> (text@.len() == SID_LEN && sid_number(text@) is Some),
            r matches Some(sid) ==> sid.value() == sid_number(text@)->0 && sid.text() == text@,
    {
        if text.len() != SID_LEN {
            return None;
        }
        let mut acc: u128 = 0;
        let mut i: usize = 0;
        assert(text@.subrange(0, 0).len() == 0);
        proof {
            lemma_pow64_monotone(0, 16);
        }
        while i < SID_LEN
            invariant
                i <= SID_LEN,
                text@.len() == SID_LEN,
                sid_number(text@.subrange(0, i as int)) == Some(acc as nat),
                acc < pow64(i as nat),
                pow64(i as nat) <= pow64(16),
            decreases SID_LEN - i,
        {
            let ghost prefix = text@.subrange(0, i + 1);
            proof {
                assert(prefix.drop_last() == text@.subrange(0, i as int));
                assert(prefix.last() == text@[i as int]);
                lemma_pow64_16();
                lemma_pow64_monotone((i + 1) as nat, 16);
            }
            match url_value_of(text[i]) {
                Some(v) => {
                    proof {
                        assert(acc * 64 + v < 64 * pow64(i as nat)) by (nonlinear_arith)
                            requires
                                acc < pow64(i as nat),
                                v < 64,
                        ;
                    }
                    acc = acc * 64 + v as u128;
                },
                None => {
                    proof {
                        lemma_sid_number_prefix(text@, i + 1);
                    }
                    return None;
                },
            }
            i += 1;
        }
        proof {
            assert(text@.subrange(0, 16) == text@);
            lemma_pow64_16();
            lemma_sid_text_of_number(text@);
        }
        Some(Sid { bits: acc })
    }
}

/// Powers of 64 grow with the exponent and are at least one.
pub proof fn lemma_pow64_monotone(a: nat, b: nat)
    requires
        a <= b,
    ensures
        pow64(a) <= pow64(b),
        pow64(a) >= 1,
    decreases b,
{
    if a < b {
        lemma_pow64_monotone(a, (b - 1) as nat);
    } else if a > 0 {
        lemma_pow64_monotone((a - 1) as nat, (b - 1) as nat);
    }
}

/// A text with a bad character in some prefix denotes no number.
pub proof fn lemma_sid_number_prefix(text: Seq<u8>, k: int)
    requires
        0 <= k <= text.len(),
        sid_number(text.subrange(0, k)) is None,
    ensures
        sid_number(text) is None,
    decreases text.len() - k,
{
    if k < text.len() {
        let next = text.subrange(0, k + 1);
        assert(next.drop_last() == text.subrange(0, k));
        lemma_sid_number_prefix(text, k + 1);
    } else {
        assert(text.subrange(0, k) == text);
    }
}

} // verus!
