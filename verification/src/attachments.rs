//! Attachments inside JSON.
//!
//! The arguments of a binary event are a JSON value in which binary data
//! may stand anywhere. On the wire each piece of binary data travels in
//! a frame of its own, and the JSON holds `{"_placeholder":true,"num":n}`
//! in its place, `n` counting the attachments from zero in the order in
//! which they are met. This module takes attachments out of a value and
//! puts them back.
//!
//! Reading and writing JSON text is not done here: [`Json`] is the tree
//! that a JSON parser hands over.

use crate::errors::Error;
use crate::text::all_digits;
use crate::text::copy_range;
use crate::text::decimal;
use crate::text::digits_value;
use crate::text::lemma_decimal_digits;
use crate::text::lemma_decimal_value;
use crate::text::parse_digits;
use crate::text::push_decimal;
use crate::text::scan_digits;
use crate::text::lemma_digits_end_bounds;
use crate::text::bytes_eq;
use vstd::prelude::*;

verus! {

/// A JSON value whose leaves may be binary data.
///
/// Numbers are kept as their text, strings as their content. An object
/// holds its keys and its values as two lists of one length.
#[derive(Debug, PartialEq, Eq)]
pub enum Json {
    Null,
    Bool(bool),
    Number(Vec<u8>),
    Text(Vec<u8>),
    Array(Vec<Json>),
    Object(Vec<Vec<u8>>, Vec<Json>),
    Binary(Vec<u8>),
}

/// The contents of a [`Json`] value.
pub enum JsonView {
    Null,
    Bool(bool),
    Number(Seq<u8>),
    Text(Seq<u8>),
    Array(Seq<JsonView>),
    Object(Seq<Seq<u8>>, Seq<JsonView>),
    Binary(Seq<u8>),
}

/// The contents of a list of values.
pub open spec fn views(items: Seq<Json>) -> Seq<JsonView>
    decreases items,
{
    Seq::new(
        items.len(),
        |i: int|
            if 0 <= i < items.len() {
                items[i]@
            } else {
                JsonView::Null
            },
    )
}

/// The contents of a list of byte strings.
pub open spec fn texts(items: Seq<Vec<u8>>) -> Seq<Seq<u8>> {
    Seq::new(items.len(), |i: int| items[i]@)
}

impl Json {
    /// The contents of the value.
    pub open spec fn view(&self) -> JsonView
        decreases self,
    {
        match self {
            Json::Null => JsonView::Null,
            Json::Bool(b) => JsonView::Bool(*b),
            Json::Number(n) => JsonView::Number(n@),
            Json::Text(t) => JsonView::Text(t@),
            Json::Array(items) => JsonView::Array(views(items@)),
            Json::Object(keys, values) => JsonView::Object(texts(keys@), views(values@)),
            Json::Binary(b) => JsonView::Binary(b@),
        }
    }
}

/// The key `_placeholder`.
pub open spec fn key_placeholder() -> Seq<u8> {
    seq![95u8, 112, 108, 97, 99, 101, 104, 111, 108, 100, 101, 114]
}

/// The key `num`.
pub open spec fn key_num() -> Seq<u8> {
    seq![110u8, 117, 109]
}

/// The object `{"_placeholder":true,"num":n}`.
pub open spec fn placeholder(n: nat) -> JsonView {
    JsonView::Object(
        seq![key_placeholder(), key_num()],
        seq![JsonView::Bool(true), JsonView::Number(decimal(n))],
    )
}

/// A number that is a non-empty run of digits.
pub open spec fn is_index(t: JsonView) -> bool {
    t matches JsonView::Number(d) && d.len() > 0 && all_digits(d)
}

/// The attachment that `t` stands for, if `t` is a placeholder: an
/// object of exactly the members `_placeholder`, which is `true`, and
/// `num`, which is a run of digits, in this order.
pub open spec fn placeholder_num(t: JsonView) -> Option<nat> {
    match t {
        JsonView::Object(keys, values) => if keys == seq![key_placeholder(), key_num()]
            && values.len() == 2 && values[0] == JsonView::Bool(true) && is_index(values[1]) {
            Some(digits_value(values[1]->Number_0))
        } else {
            None
        },
        _ => None,
    }
}

/// The children of a value: the items of an array, the values of an
/// object.
pub open spec fn children(t: JsonView) -> Seq<JsonView> {
    match t {
        JsonView::Array(items) => items,
        JsonView::Object(_, values) => values,
        _ => Seq::empty(),
    }
}

/// The same value with other children.
pub open spec fn with_children(t: JsonView, items: Seq<JsonView>) -> JsonView {
    match t {
        JsonView::Array(_) => JsonView::Array(items),
        JsonView::Object(keys, _) => JsonView::Object(keys, items),
        other => other,
    }
}

/// The binary leaves of a value, in the order in which they are met.
pub open spec fn leaves(t: JsonView) -> Seq<Seq<u8>>
    decreases t,
{
    match t {
        JsonView::Binary(data) => seq![data],
        JsonView::Array(items) => leaves_upto(items, items.len() as int),
        JsonView::Object(_, values) => leaves_upto(values, values.len() as int),
        _ => Seq::empty(),
    }
}

/// The binary leaves of the first `n` of `items`.
pub open spec fn leaves_upto(items: Seq<JsonView>, n: int) -> Seq<Seq<u8>>
    decreases items, n,
{
    if 0 < n <= items.len() {
        leaves_upto(items, n - 1) + leaves(items[n - 1])
    } else {
        Seq::empty()
    }
}

/// The value with its binary leaves taken out: each gives way to a
/// placeholder, numbered from `base` in the order in which the leaves
/// are met.
pub open spec fn extract(t: JsonView, base: nat) -> JsonView
    decreases t,
{
    match t {
        JsonView::Binary(_) => placeholder(base),
        JsonView::Array(items) => JsonView::Array(
            Seq::new(
                items.len(),
                |i: int|
                    if 0 <= i < items.len() {
                        extract(items[i], base + leaves_upto(items, i).len())
                    } else {
                        JsonView::Null
                    },
            ),
        ),
        JsonView::Object(keys, values) => JsonView::Object(
            keys,
            Seq::new(
                values.len(),
                |i: int|
                    if 0 <= i < values.len() {
                        extract(values[i], base + leaves_upto(values, i).len())
                    } else {
                        JsonView::Null
                    },
            ),
        ),
        other => other,
    }
}

/// Whether every placeholder in `t` names one of `count` attachments.
pub open spec fn fits(t: JsonView, count: nat) -> bool
    decreases t,
{
    match placeholder_num(t) {
        Some(n) => n < count,
        None => match t {
            JsonView::Array(items) => forall|i: int|
                0 <= i < items.len() ==> fits(#[trigger] items[i], count),
            JsonView::Object(_, values) => forall|i: int|
                0 <= i < values.len() ==> fits(#[trigger] values[i], count),
            _ => true,
        },
    }
}

/// The value with its attachments put back: every placeholder gives way
/// to the attachment it names. A placeholder that names none is left as
/// it is; see [`fits`].
pub open spec fn substitute(t: JsonView, bin: Seq<Seq<u8>>) -> JsonView
    decreases t,
{
    match placeholder_num(t) {
        Some(n) => if n < bin.len() {
            JsonView::Binary(bin[n as int])
        } else {
            t
        },
        None => match t {
            JsonView::Array(items) => JsonView::Array(
                Seq::new(
                    items.len(),
                    |i: int|
                        if 0 <= i < items.len() {
                            substitute(items[i], bin)
                        } else {
                            JsonView::Null
                        },
                ),
            ),
            JsonView::Object(keys, values) => JsonView::Object(
                keys,
                Seq::new(
                    values.len(),
                    |i: int|
                        if 0 <= i < values.len() {
                            substitute(values[i], bin)
                        } else {
                            JsonView::Null
                        },
                ),
            ),
            other => other,
        },
    }
}

/// No part of `t` has the shape of a placeholder.
pub open spec fn plain(t: JsonView) -> bool
    decreases t,
{
    &&& placeholder_num(t) is None
    &&& match t {
        JsonView::Array(items) => forall|i: int| 0 <= i < items.len() ==> plain(#[trigger] items[i]),
        JsonView::Object(_, values) => forall|i: int|
            0 <= i < values.len() ==> plain(#[trigger] values[i]),
        _ => true,
    }
}

/// The `len` attachments from position `from` on.
pub open spec fn span(bin: Seq<Seq<u8>>, from: nat, len: nat) -> Seq<Seq<u8>> {
    bin.subrange(from as int, (from + len) as int)
}

/// The leaves of a longer prefix begin with the leaves of a shorter one.
pub proof fn lemma_leaves_upto_step(items: Seq<JsonView>, i: int)
    requires
        0 <= i < items.len(),
    ensures
        leaves_upto(items, i + 1) == leaves_upto(items, i) + leaves(items[i]),
        leaves_upto(items, 0) == Seq::<Seq<u8>>::empty(),
{
}

proof fn lemma_leaves_upto_split(items: Seq<JsonView>, i: int, n: int)
    requires
        0 <= i < n <= items.len(),
    ensures
        leaves_upto(items, n).len() >= leaves_upto(items, i).len() + leaves(items[i]).len(),
        span(leaves_upto(items, n), leaves_upto(items, i).len(), leaves(items[i]).len())
            == leaves(items[i]),
    decreases n - i,
{
    let a = leaves_upto(items, i);
    let b = leaves(items[i]);
    if n == i + 1 {
        assert(leaves_upto(items, n) == a + b);
        assert(span(a + b, a.len(), b.len()) =~= b);
    } else {
        lemma_leaves_upto_split(items, i, n - 1);
        let shorter = leaves_upto(items, n - 1);
        let longer = leaves_upto(items, n);
        assert(longer == shorter + leaves(items[n - 1]));
        assert(span(longer, a.len(), b.len()) =~= span(shorter, a.len(), b.len()));
    }
}

proof fn lemma_placeholder(n: nat)
    ensures
        placeholder_num(placeholder(n)) == Some(n),
{
    lemma_decimal_digits(n);
    lemma_decimal_value(n);
}

/// Putting back undoes taking out. A value without placeholders, with
/// its leaves taken out and numbered from `base`, becomes itself again
/// when the attachments from `base` on are its leaves in order.
pub proof fn law_substitute_extract(t: JsonView, base: nat, bin: Seq<Seq<u8>>)
    requires
        plain(t),
        base + leaves(t).len() <= bin.len(),
        span(bin, base, leaves(t).len()) == leaves(t),
    ensures
        substitute(extract(t, base), bin) == t,
        fits(extract(t, base), bin.len()),
    decreases t,
{
    let e = extract(t, base);
    match t {
        JsonView::Binary(data) => {
            lemma_placeholder(base);
            assert(e == placeholder(base));
            assert(span(bin, base, 1)[0] == data);
            assert(substitute(e, bin) == t);
            assert(fits(e, bin.len()));
        },
        JsonView::Array(items) => {
            lemma_children(t, items, base, bin);
            assert(placeholder_num(e) is None);
            let out = e->Array_0;
            assert forall|i: int| 0 <= i < items.len() implies substitute(#[trigger] out[i], bin)
                == items[i] && fits(out[i], bin.len()) by {
                assert(out[i] == extract(items[i], base + leaves_upto(items, i).len()));
            }
            assert(substitute(e, bin)->Array_0 =~= items);
            assert(fits(e, bin.len()));
        },
        JsonView::Object(keys, values) => {
            lemma_children(t, values, base, bin);
            lemma_extract_keeps_shape(t, base);
            let out = e->Object_1;
            assert forall|i: int| 0 <= i < values.len() implies substitute(#[trigger] out[i], bin)
                == values[i] && fits(out[i], bin.len()) by {
                assert(out[i] == extract(values[i], base + leaves_upto(values, i).len()));
            }
            assert(substitute(e, bin)->Object_1 =~= values);
            assert(fits(e, bin.len()));
        },
        _ => {},
    }
}

/// Taking leaves out of a value that is no placeholder does not make it
/// one.
proof fn lemma_extract_keeps_shape(t: JsonView, base: nat)
    requires
        plain(t),
        !(t is Binary),
    ensures
        placeholder_num(extract(t, base)) is None,
{
    match t {
        JsonView::Object(keys, values) => {
            let e = extract(t, base);
            if placeholder_num(e) is Some {
                assert(values.len() == 2);
                assert(plain(values[0]) && plain(values[1]));
                assert(e->Object_1[0] == extract(values[0], base + leaves_upto(values, 0).len()));
                assert(e->Object_1[1] == extract(values[1], base + leaves_upto(values, 1).len()));
                assert(values[0] == JsonView::Bool(true));
                assert(values[1] is Number);
                assert(values[1] == e->Object_1[1]);
                assert(e->Object_1 =~= values);
            }
        },
        _ => {},
    }
}

proof fn lemma_children(t: JsonView, items: Seq<JsonView>, base: nat, bin: Seq<Seq<u8>>)
    requires
        plain(t),
        items == children(t),
        t is Array || t is Object,
        base + leaves(t).len() <= bin.len(),
        span(bin, base, leaves(t).len()) == leaves(t),
    ensures
        forall|i: int|
            0 <= i < items.len() ==> substitute(
                #[trigger] extract(items[i], base + leaves_upto(items, i).len()),
                bin,
            ) == items[i] && fits(
                extract(items[i], base + leaves_upto(items, i).len()),
                bin.len(),
            ),
    decreases t, 0int,
{
    assert(leaves(t) == leaves_upto(items, items.len() as int));
    assert forall|i: int| 0 <= i < items.len() implies substitute(
        #[trigger] extract(items[i], base + leaves_upto(items, i).len()),
        bin,
    ) == items[i] && fits(extract(items[i], base + leaves_upto(items, i).len()), bin.len()) by {
        lemma_leaves_upto_split(items, i, items.len() as int);
        let off = leaves_upto(items, i).len();
        let all = leaves_upto(items, items.len() as int);
        assert(span(bin, base + off, leaves(items[i]).len()) =~= span(
            all,
            off,
            leaves(items[i]).len(),
        ));
        assert(plain(items[i]));
        law_substitute_extract(items[i], base + off, bin);
    }
}


/// What a value is with respect to `count` attachments.
#[derive(Clone, Copy, Debug, PartialEq, Eq, Structural)]
pub enum Slot {
    /// No placeholder.
    Value,
    /// The placeholder of the attachment with this number.
    Attachment(usize),
    /// A placeholder that names none of the attachments.
    Missing,
}

fn copy_bytes(bytes: &Vec<u8>) -> (copy: Vec<u8>)
    ensures
        copy@ == bytes@,
{
    let copy = copy_range(bytes.as_slice(), 0, bytes.len());
    assert(bytes@.subrange(0, bytes@.len() as int) == bytes@);
    copy
}

fn copy_keys(keys: &Vec<Vec<u8>>) -> (copy: Vec<Vec<u8>>)
    ensures
        texts(copy@) == texts(keys@),
{
    let mut copy: Vec<Vec<u8>> = Vec::new();
    let mut i: usize = 0;
    while i < keys.len()
        invariant
            i <= keys.len(),
            texts(copy@) == texts(keys@).take(i as int),
        decreases keys.len() - i,
    {
        let ghost sofar = texts(copy@);
        copy.push(copy_bytes(&keys[i]));
        assert(texts(copy@) =~= sofar.push(keys@[i as int]@));
        assert(texts(keys@).take(i + 1) =~= texts(keys@).take(i as int).push(keys@[i as int]@));
        i += 1;
    }
    assert(texts(keys@).take(keys.len() as int) =~= texts(keys@));
    copy
}

/// The object `{"_placeholder":true,"num":n}`.
pub fn make_placeholder(n: usize) -> (p: Json)
    ensures
        p@ == placeholder(n as nat),
{
    let mut keys: Vec<Vec<u8>> = Vec::new();
    let first: Vec<u8> = vec![95u8, 112, 108, 97, 99, 101, 104, 111, 108, 100, 101, 114];
    let second: Vec<u8> = vec![110u8, 117, 109];
    assert(first@ =~= key_placeholder());
    assert(second@ =~= key_num());
    keys.push(first);
    keys.push(second);
    let mut number: Vec<u8> = Vec::new();
    push_decimal(&mut number, n as u64);
    assert(number@ =~= decimal(n as nat));
    let mut values: Vec<Json> = Vec::new();
    values.push(Json::Bool(true));
    values.push(Json::Number(number));
    let p = Json::Object(keys, values);
    proof {
        assert(texts(keys@) =~= seq![key_placeholder(), key_num()]);
        assert(views(values@) =~= seq![JsonView::Bool(true), JsonView::Number(decimal(n as nat))]);
    }
    p
}

impl Json {
    /// Tells whether the value is a placeholder, and of which of `count`
    /// attachments.
    pub fn slot(&self, count: usize) -> (slot: Slot)
        ensures
            match slot {
                Slot::Value => placeholder_num(self@) is None,
                Slot::Attachment(n) => placeholder_num(self@) == Some(n as nat) && n < count,
                Slot::Missing => placeholder_num(self@) matches Some(n) && n >= count,
            },
    {
        match self {
            Json::Object(keys, values) => {
                if keys.len() != 2 || values.len() != 2 {
                    proof {
                        if keys.len() != 2 {
                            assert(texts(keys@).len() != 2);
                        }
                    }
                    return Slot::Value;
                }
                let first: Vec<u8> = vec![
                    95u8, 112, 108, 97, 99, 101, 104, 111, 108, 100, 101, 114,
                ];
                let second: Vec<u8> = vec![110u8, 117, 109];
                assert(first@ =~= key_placeholder());
                assert(second@ =~= key_num());
                let named = bytes_eq(keys[0].as_slice(), first.as_slice()) && bytes_eq(
                    keys[1].as_slice(),
                    second.as_slice(),
                );
                proof {
                    assert(texts(keys@)[0] == keys@[0]@);
                    assert(texts(keys@)[1] == keys@[1]@);
                    if named {
                        assert(texts(keys@) =~= seq![key_placeholder(), key_num()]);
                    }
                    assert(views(values@)[0] == values@[0]@);
                    assert(views(values@)[1] == values@[1]@);
                }
                if !named {
                    return Slot::Value;
                }
                let marked = match &values[0] {
                    Json::Bool(true) => true,
                    _ => false,
                };
                if !marked {
                    return Slot::Value;
                }
                match &values[1] {
                    Json::Number(digits) => {
                        let end = scan_digits(digits.as_slice(), 0);
                        proof {
                            lemma_digits_end_bounds(digits@, 0);
                            if end == digits@.len() {
                                assert(digits@.subrange(0, end as int) == digits@);
                            } else {
                                assert(!all_digits(digits@));
                            }
                        }
                        if digits.len() == 0 || end != digits.len() {
                            return Slot::Value;
                        }
                        match parse_digits(digits.as_slice(), 0, end) {
                            Some(n) => if n < count as u64 {
                                Slot::Attachment(n as usize)
                            } else {
                                Slot::Missing
                            },
                            None => Slot::Missing,
                        }
                    },
                    _ => Slot::Value,
                }
            },
            _ => Slot::Value,
        }
    }

    /// Puts the attachments back: every placeholder gives way to a copy
    /// of the attachment it names; see [`substitute`]. Fails with
    /// `InvalidPlaceholder` when a placeholder names none of them.
    pub fn substitute(&self, bin: &Vec<Vec<u8>>) -> (r: Result<Json, Error>)
        ensures
            match r {
                Ok(out) => fits(self@, bin@.len()) && out@ == substitute(self@, texts(bin@)),
                Err(e) => !fits(self@, bin@.len()) && e == Error::InvalidPlaceholder,
            },
        decreases self,
    {
        match self.slot(bin.len()) {
            Slot::Attachment(n) => {
                assert(texts(bin@)[n as int] == bin@[n as int]@);
                return Ok(Json::Binary(copy_bytes(&bin[n])));
            },
            Slot::Missing => {
                return Err(Error::InvalidPlaceholder);
            },
            Slot::Value => {},
        }
        match self {
            Json::Null => Ok(Json::Null),
            Json::Bool(b) => Ok(Json::Bool(*b)),
            Json::Number(n) => Ok(Json::Number(copy_bytes(n))),
            Json::Text(t) => Ok(Json::Text(copy_bytes(t))),
            Json::Binary(b) => Ok(Json::Binary(copy_bytes(b))),
            Json::Array(items) => {
                match Self::substitute_all(items, bin) {
                    Ok(out) => {
                        let r = Json::Array(out);
                        proof {
                            let want = substitute(self@, texts(bin@));
                            assert(want is Array);
                            assert forall|i: int| 0 <= i < items@.len() implies r@->Array_0[i]
                                == want->Array_0[i] by {
                                assert(views(out@)[i] == out@[i]@);
                                assert(views(items@)[i] == items@[i]@);
                            }
                            assert(r@->Array_0 =~= want->Array_0);
                            assert forall|i: int| 0 <= i < views(items@).len() implies fits(
                                #[trigger] views(items@)[i],
                                bin@.len(),
                            ) by {
                                assert(views(items@)[i] == items@[i]@);
                            }
                        }
                        Ok(r)
                    },
                    Err(e) => {
                        proof {
                            let k = choose|k: int|
                                0 <= k < items@.len() && !fits(#[trigger] items@[k]@, bin@.len());
                            assert(views(items@)[k] == items@[k]@);
                        }
                        Err(e)
                    },
                }
            },
            Json::Object(keys, values) => {
                match Self::substitute_all(values, bin) {
                    Ok(out) => {
                        let r = Json::Object(copy_keys(keys), out);
                        proof {
                            let want = substitute(self@, texts(bin@));
                            assert(want is Object);
                            assert forall|i: int| 0 <= i < values@.len() implies r@->Object_1[i]
                                == want->Object_1[i] by {
                                assert(views(out@)[i] == out@[i]@);
                                assert(views(values@)[i] == values@[i]@);
                            }
                            assert(r@->Object_1 =~= want->Object_1);
                            assert forall|i: int| 0 <= i < views(values@).len() implies fits(
                                #[trigger] views(values@)[i],
                                bin@.len(),
                            ) by {
                                assert(views(values@)[i] == values@[i]@);
                            }
                        }
                        Ok(r)
                    },
                    Err(e) => {
                        proof {
                            let k = choose|k: int|
                                0 <= k < values@.len() && !fits(#[trigger] values@[k]@, bin@.len());
                            assert(views(values@)[k] == values@[k]@);
                        }
                        Err(e)
                    },
                }
            },
        }
    }

    fn substitute_all(items: &Vec<Json>, bin: &Vec<Vec<u8>>) -> (r: Result<Vec<Json>, Error>)
        ensures
            match r {
                Ok(out) => out@.len() == items@.len() && forall|i: int|
                    0 <= i < items@.len() ==> fits(#[trigger] items@[i]@, bin@.len()) && out@[i]@
                        == substitute(items@[i]@, texts(bin@)),
                Err(e) => e == Error::InvalidPlaceholder && exists|i: int|
                    0 <= i < items@.len() && !fits(#[trigger] items@[i]@, bin@.len()),
            },
        decreases items,
    {
        let mut out: Vec<Json> = Vec::new();
        let mut i: usize = 0;
        while i < items.len()
            invariant
                i <= items.len(),
                out@.len() == i,
                forall|k: int|
                    0 <= k < i ==> fits(#[trigger] items@[k]@, bin@.len()) && out@[k]@ == substitute(
                        items@[k]@,
                        texts(bin@),
                    ),
            decreases items.len() - i,
        {
            match items[i].substitute(bin) {
                Ok(item) => out.push(item),
                Err(e) => {
                    assert(!fits(items@[i as int]@, bin@.len()));
                    return Err(e);
                },
            }
            i += 1;
        }
        Ok(out)
    }

    /// Takes the binary leaves out: each is appended to `bin` and gives
    /// way to a placeholder with its number there; see [`extract`].
    pub fn extract(&self, bin: &mut Vec<Vec<u8>>) -> (out: Json)
        ensures
            out@ == extract(self@, old(bin)@.len()),
            texts(final(bin)@) == texts(old(bin)@) + leaves(self@),
        decreases self,
    {
        match self {
            Json::Null => {
                assert(texts(bin@) + Seq::<Seq<u8>>::empty() =~= texts(bin@));
                Json::Null
            },
            Json::Bool(b) => {
                assert(texts(bin@) + Seq::<Seq<u8>>::empty() =~= texts(bin@));
                Json::Bool(*b)
            },
            Json::Number(n) => {
                assert(texts(bin@) + Seq::<Seq<u8>>::empty() =~= texts(bin@));
                Json::Number(copy_bytes(n))
            },
            Json::Text(t) => {
                assert(texts(bin@) + Seq::<Seq<u8>>::empty() =~= texts(bin@));
                Json::Text(copy_bytes(t))
            },
            Json::Binary(b) => {
                let n = bin.len();
                let ghost before = texts(bin@);
                bin.push(copy_bytes(b));
                assert(texts(bin@) =~= before + seq![b@]);
                make_placeholder(n)
            },
            Json::Array(items) => {
                let out = Self::extract_all(items, bin);
                let r = Json::Array(out);
                assert(r@->Array_0 =~= extract(self@, old(bin)@.len())->Array_0);
                r
            },
            Json::Object(keys, values) => {
                let out = Self::extract_all(values, bin);
                let r = Json::Object(copy_keys(keys), out);
                assert(r@->Object_1 =~= extract(self@, old(bin)@.len())->Object_1);
                r
            },
        }
    }

    fn extract_all(items: &Vec<Json>, bin: &mut Vec<Vec<u8>>) -> (out: Vec<Json>)
        ensures
            out@.len() == items@.len(),
            forall|i: int|
                0 <= i < items@.len() ==> (#[trigger] out@[i])@ == extract(
                    items@[i]@,
                    old(bin)@.len() + leaves_upto(views(items@), i).len(),
                ),
            texts(final(bin)@) == texts(old(bin)@) + leaves_upto(
                views(items@),
                items@.len() as int,
            ),
        decreases items,
    {
        let ghost all = views(items@);
        let ghost start = texts(bin@);
        let mut out: Vec<Json> = Vec::new();
        let mut i: usize = 0;
        assert(start + leaves_upto(all, 0) =~= start);
        while i < items.len()
            invariant
                i <= items.len(),
                out@.len() == i,
                all == views(items@),
                start == texts(old(bin)@),
                texts(bin@) == start + leaves_upto(all, i as int),
                forall|k: int|
                    0 <= k < i ==> (#[trigger] out@[k])@ == extract(
                        items@[k]@,
                        start.len() + leaves_upto(all, k).len(),
                    ),
            decreases items.len() - i,
        {
            let ghost sofar = texts(bin@);
            let item = items[i].extract(bin);
            out.push(item);
            proof {
                lemma_leaves_upto_step(all, i as int);
                assert(all[i as int] == items@[i as int]@);
                assert(texts(bin@) =~= start + leaves_upto(all, i + 1));
            }
            i += 1;
        }
        out
    }
}

} // verus!
