//! The generic protocol value: a tagged union of scalars, byte and text
//! strings, lists and ordered maps.
//!
//! `ValueModel` is what a value is, mathematically; `AmqpValue` is the value
//! in memory, and its view is its model.

use crate::ordered_map::distinct_keys;
use crate::ordered_map::pairs_view;
use crate::ordered_map::AmqpOrderedMap;
use crate::ordered_map::MapKey;
use vstd::prelude::*;
use vstd::slice::slice_to_vec;

verus! {

/// A symbolic name. On the wire it is told apart from a text string by its tag.
pub type AmqpSymbol = String;

/// A list of values.
pub type AmqpList = Vec<AmqpValue>;

/// What a value is: the same union with sequences in place of vectors.
pub enum ValueModel {
    Null,
    Boolean(bool),
    UByte(u8),
    UShort(u16),
    UInt(u32),
    ULong(u64),
    Byte(i8),
    Short(i16),
    Int(i32),
    Long(i64),
    TimeStamp(i64),
    Binary(Seq<u8>),
    String(Seq<char>),
    Symbol(Seq<char>),
    List(Seq<ValueModel>),
    Dict(Seq<(ValueModel, ValueModel)>),
}

/// A value in memory.
#[derive(Debug, PartialEq, Eq)]
pub enum AmqpValue {
    Null,
    Boolean(bool),
    UByte(u8),
    UShort(u16),
    UInt(u32),
    ULong(u64),
    Byte(i8),
    Short(i16),
    Int(i32),
    Long(i64),
    /// Milliseconds since the Unix epoch.
    TimeStamp(i64),
    Binary(Vec<u8>),
    String(String),
    Symbol(AmqpSymbol),
    List(AmqpList),
    /// A map from values to values, in insertion order.
    Dict(AmqpOrderedMap<AmqpValue, AmqpValue>),
}

/// The model of a value.
pub open spec fn value_model(v: AmqpValue) -> ValueModel
    decreases v,
{
    match v {
        AmqpValue::Null => ValueModel::Null,
        AmqpValue::Boolean(b) => ValueModel::Boolean(b),
        AmqpValue::UByte(n) => ValueModel::UByte(n),
        AmqpValue::UShort(n) => ValueModel::UShort(n),
        AmqpValue::UInt(n) => ValueModel::UInt(n),
        AmqpValue::ULong(n) => ValueModel::ULong(n),
        AmqpValue::Byte(n) => ValueModel::Byte(n),
        AmqpValue::Short(n) => ValueModel::Short(n),
        AmqpValue::Int(n) => ValueModel::Int(n),
        AmqpValue::Long(n) => ValueModel::Long(n),
        AmqpValue::TimeStamp(n) => ValueModel::TimeStamp(n),
        AmqpValue::Binary(b) => ValueModel::Binary(b@),
        AmqpValue::String(s) => ValueModel::String(s@),
        AmqpValue::Symbol(s) => ValueModel::Symbol(s@),
        AmqpValue::List(items) => ValueModel::List(list_model(items@, items@.len())),
        AmqpValue::Dict(m) => {
            proof {
                m.lemma_pairs_decrease();
            }
            ValueModel::Dict(pairs_model(m.pairs(), m.pairs().len()))
        },
    }
}

/// The models of the first `n` values of `s`.
pub open spec fn list_model(s: Seq<AmqpValue>, n: nat) -> Seq<ValueModel>
    decreases s, n,
{
    if n == 0 || n > s.len() {
        Seq::empty()
    } else {
        list_model(s, (n - 1) as nat).push(value_model(s[n - 1]))
    }
}

/// The models of the first `n` entries of `s`.
pub open spec fn pairs_model(s: Seq<(AmqpValue, AmqpValue)>, n: nat) -> Seq<
    (ValueModel, ValueModel),
>
    decreases s, n,
{
    if n == 0 || n > s.len() {
        Seq::empty()
    } else {
        pairs_model(s, (n - 1) as nat).push((value_model(s[n - 1].0), value_model(s[n - 1].1)))
    }
}

impl View for AmqpValue {
    type V = ValueModel;

    open spec fn view(&self) -> ValueModel {
        value_model(*self)
    }
}

/// The views of the values of `s`.
pub open spec fn list_view(s: Seq<AmqpValue>) -> Seq<ValueModel> {
    Seq::new(s.len(), |i: int| s[i]@)
}

/// In every map inside the value, no key occurs twice.
pub open spec fn value_wf(v: ValueModel) -> bool
    decreases v,
{
    match v {
        ValueModel::List(items) => list_wf(items),
        ValueModel::Dict(pairs) => pairs_wf(pairs),
        _ => true,
    }
}

/// Every value of the list is well formed.
pub open spec fn list_wf(items: Seq<ValueModel>) -> bool
    decreases items,
{
    forall|i: int| 0 <= i < items.len() ==> value_wf(#[trigger] items[i])
}

/// Every key and value of the map is well formed, and no key occurs twice.
pub open spec fn pairs_wf(pairs: Seq<(ValueModel, ValueModel)>) -> bool
    decreases pairs,
{
    &&& distinct_keys(pairs)
    &&& forall|i: int|
        0 <= i < pairs.len() ==> value_wf((#[trigger] pairs[i]).0) && value_wf(pairs[i].1)
}

/// Every length inside the value is below 2^64, so that the eight bytes which
/// the wire gives a length can hold it. This is true of every value in
/// memory; a model can be larger.
pub open spec fn value_fits(v: ValueModel) -> bool
    decreases v,
{
    match v {
        ValueModel::Binary(b) => b.len() <= u64::MAX,
        ValueModel::String(s) => vstd::utf8::encode_utf8(s).len() <= u64::MAX,
        ValueModel::Symbol(s) => vstd::utf8::encode_utf8(s).len() <= u64::MAX,
        ValueModel::List(items) => list_fits(items),
        ValueModel::Dict(pairs) => pairs_fits(pairs),
        _ => true,
    }
}

/// The list and every value of it fit.
pub open spec fn list_fits(items: Seq<ValueModel>) -> bool
    decreases items,
{
    &&& items.len() <= u64::MAX
    &&& forall|i: int| 0 <= i < items.len() ==> value_fits(#[trigger] items[i])
}

/// The map and every key and value of it fit.
pub open spec fn pairs_fits(pairs: Seq<(ValueModel, ValueModel)>) -> bool
    decreases pairs,
{
    &&& pairs.len() <= u64::MAX
    &&& forall|i: int|
        0 <= i < pairs.len() ==> value_fits((#[trigger] pairs[i]).0) && value_fits(pairs[i].1)
}

/// The models of the first `n` values are the views of those values.
pub proof fn lemma_list_model(s: Seq<AmqpValue>, n: nat)
    requires
        n <= s.len(),
    ensures
        list_model(s, n) == list_view(s.take(n as int)),
    decreases n,
{
    if n > 0 {
        lemma_list_model(s, (n - 1) as nat);
    }
    assert(list_model(s, n) =~= list_view(s.take(n as int)));
}

/// The models of the first `n` entries are the views of those entries.
pub proof fn lemma_pairs_model(s: Seq<(AmqpValue, AmqpValue)>, n: nat)
    requires
        n <= s.len(),
    ensures
        pairs_model(s, n) == pairs_view(s.take(n as int)),
    decreases n,
{
    if n > 0 {
        lemma_pairs_model(s, (n - 1) as nat);
    }
    assert(pairs_model(s, n) =~= pairs_view(s.take(n as int)));
}

/// The view of a list value is the list of the views of its items.
pub proof fn lemma_list_value_view(items: Vec<AmqpValue>)
    ensures
        AmqpValue::List(items)@ == ValueModel::List(list_view(items@)),
{
    lemma_list_model(items@, items@.len());
    assert(items@.take(items@.len() as int) =~= items@);
}

/// The view of a map value is the view of the map.
pub proof fn lemma_dict_value_view(m: AmqpOrderedMap<AmqpValue, AmqpValue>)
    ensures
        AmqpValue::Dict(m)@ == ValueModel::Dict(m@),
{
    lemma_pairs_model(m.pairs(), m.pairs().len());
    assert(m.pairs().take(m.pairs().len() as int) =~= m.pairs());
}

/// A fresh vector with the same bytes.
pub fn clone_bytes(b: &Vec<u8>) -> (r: Vec<u8>)
    ensures
        r@ == b@,
{
    slice_to_vec(b.as_slice())
}

/// Whether two byte vectors hold the same bytes.
pub fn eq_bytes(a: &Vec<u8>, b: &Vec<u8>) -> (r: bool)
    ensures
        r == (a@ == b@),
{
    if a.len() != b.len() {
        return false;
    }
    let mut i: usize = 0;
    while i < a.len()
        invariant
            i <= a@.len(),
            a@.len() == b@.len(),
            forall|j: int| 0 <= j < i ==> a@[j] == b@[j],
        decreases a@.len() - i,
    {
        if a[i] != b[i] {
            return false;
        }
        i = i + 1;
    }
    assert(a@ =~= b@);
    true
}

/// Whether two lists hold the same values in the same order.
pub fn eq_list(x: &Vec<AmqpValue>, y: &Vec<AmqpValue>) -> (r: bool)
    ensures
        r == (list_view(x@) == list_view(y@)),
    decreases x,
{
    if x.len() != y.len() {
        assert(list_view(x@).len() != list_view(y@).len());
        return false;
    }
    let mut i: usize = 0;
    while i < x.len()
        invariant
            i <= x@.len(),
            x@.len() == y@.len(),
            forall|j: int| 0 <= j < i ==> x@[j]@ == y@[j]@,
        decreases x@.len() - i,
    {
        proof {
            vstd::std_specs::vec::axiom_vec_index_decreases(*x, i as int);
        }
        if !eq_value(&x[i], &y[i]) {
            assert(list_view(x@)[i as int] != list_view(y@)[i as int]);
            return false;
        }
        i = i + 1;
    }
    assert(list_view(x@) =~= list_view(y@));
    true
}

/// Whether two maps hold the same entries in the same order.
pub fn eq_dict(
    x: &AmqpOrderedMap<AmqpValue, AmqpValue>,
    y: &AmqpOrderedMap<AmqpValue, AmqpValue>,
) -> (r: bool)
    ensures
        r == (x@ == y@),
    decreases x,
{
    if x.len() != y.len() {
        assert(x@.len() != y@.len());
        return false;
    }
    let mut i: usize = 0;
    while i < x.len()
        invariant
            i <= x.pairs().len(),
            x.pairs().len() == y.pairs().len(),
            forall|j: int| 0 <= j < i ==> x@[j] == y@[j],
        decreases x.pairs().len() - i,
    {
        proof {
            x.lemma_pairs_decrease();
            assert(decreases_to!(x.pairs() => x.pairs()[i as int]));
            assert(decreases_to!(x.pairs()[i as int] => x.pairs()[i as int].0));
            assert(decreases_to!(x.pairs()[i as int] => x.pairs()[i as int].1));
        }
        if !eq_value(x.key_at(i), y.key_at(i)) {
            assert(x@[i as int] != y@[i as int]);
            return false;
        }
        if !eq_value(x.value_at(i), y.value_at(i)) {
            assert(x@[i as int] != y@[i as int]);
            return false;
        }
        i = i + 1;
    }
    assert(x@ =~= y@);
    true
}

/// Whether two values are the same value: the same variant with the same
/// content, lists and maps in the same order.
pub fn eq_value(a: &AmqpValue, b: &AmqpValue) -> (r: bool)
    ensures
        r == (a@ == b@),
    decreases a,
{
    match a {
        AmqpValue::Null => matches!(b, AmqpValue::Null),
        AmqpValue::Boolean(x) => match b {
            AmqpValue::Boolean(y) => *x == *y,
            _ => false,
        },
        AmqpValue::UByte(x) => match b {
            AmqpValue::UByte(y) => *x == *y,
            _ => false,
        },
        AmqpValue::UShort(x) => match b {
            AmqpValue::UShort(y) => *x == *y,
            _ => false,
        },
        AmqpValue::UInt(x) => match b {
            AmqpValue::UInt(y) => *x == *y,
            _ => false,
        },
        AmqpValue::ULong(x) => match b {
            AmqpValue::ULong(y) => *x == *y,
            _ => false,
        },
        AmqpValue::Byte(x) => match b {
            AmqpValue::Byte(y) => *x == *y,
            _ => false,
        },
        AmqpValue::Short(x) => match b {
            AmqpValue::Short(y) => *x == *y,
            _ => false,
        },
        AmqpValue::Int(x) => match b {
            AmqpValue::Int(y) => *x == *y,
            _ => false,
        },
        AmqpValue::Long(x) => match b {
            AmqpValue::Long(y) => *x == *y,
            _ => false,
        },
        AmqpValue::TimeStamp(x) => match b {
            AmqpValue::TimeStamp(y) => *x == *y,
            _ => false,
        },
        AmqpValue::Binary(x) => match b {
            AmqpValue::Binary(y) => eq_bytes(x, y),
            _ => false,
        },
        AmqpValue::String(x) => match b {
            AmqpValue::String(y) => *x == *y,
            _ => false,
        },
        AmqpValue::Symbol(x) => match b {
            AmqpValue::Symbol(y) => *x == *y,
            _ => false,
        },
        AmqpValue::List(x) => match b {
            AmqpValue::List(y) => {
                proof {
                    assert(a->List_0 == *x);
                    lemma_list_value_view(*x);
                    lemma_list_value_view(*y);
                }
                eq_list(x, y)
            },
            _ => false,
        },
        AmqpValue::Dict(x) => match b {
            AmqpValue::Dict(y) => {
                proof {
                    assert(a->Dict_0 == *x);
                    lemma_dict_value_view(*x);
                    lemma_dict_value_view(*y);
                }
                eq_dict(x, y)
            },
            _ => false,
        },
    }
}

/// A deep copy of a list of values.
pub fn clone_list(items: &Vec<AmqpValue>) -> (r: Vec<AmqpValue>)
    ensures
        list_view(r@) == list_view(items@),
    decreases items,
{
    let mut out: Vec<AmqpValue> = Vec::new();
    let mut i: usize = 0;
    while i < items.len()
        invariant
            i <= items@.len(),
            out@.len() == i,
            forall|j: int| 0 <= j < i ==> out@[j]@ == items@[j]@,
        decreases items@.len() - i,
    {
        proof {
            vstd::std_specs::vec::axiom_vec_index_decreases(*items, i as int);
        }
        out.push(clone_value(&items[i]));
        i = i + 1;
    }
    assert(list_view(out@) =~= list_view(items@));
    out
}

/// A deep copy of a map of values.
pub fn clone_dict(x: &AmqpOrderedMap<AmqpValue, AmqpValue>) -> (r: AmqpOrderedMap<
    AmqpValue,
    AmqpValue,
>)
    ensures
        r@ == x@,
    decreases x,
{
    let mut out: Vec<(AmqpValue, AmqpValue)> = Vec::new();
    let mut i: usize = 0;
    while i < x.len()
        invariant
            i <= x.pairs().len(),
            out@.len() == i,
            forall|j: int| 0 <= j < i ==> pairs_view(out@)[j] == x@[j],
        decreases x.pairs().len() - i,
    {
        proof {
            x.lemma_pairs_decrease();
            assert(decreases_to!(x.pairs() => x.pairs()[i as int]));
            assert(decreases_to!(x.pairs()[i as int] => x.pairs()[i as int].0));
            assert(decreases_to!(x.pairs()[i as int] => x.pairs()[i as int].1));
        }
        let k = clone_value(x.key_at(i));
        let w = clone_value(x.value_at(i));
        out.push((k, w));
        i = i + 1;
    }
    assert(pairs_view(out@) =~= x@);
    assert forall|i: int, j: int|
        0 <= i < j < out@.len() && (#[trigger] out@[i]).0@ == (#[trigger] out@[j]).0@ implies x.pairs()[i].0@
        == x.pairs()[j].0@ by {
        assert(pairs_view(out@)[i] == x@[i]);
        assert(pairs_view(out@)[j] == x@[j]);
    }
    x.rebuilt(out)
}

/// A deep copy of a value.
pub fn clone_value(v: &AmqpValue) -> (r: AmqpValue)
    ensures
        r@ == v@,
    decreases v,
{
    match v {
        AmqpValue::Null => AmqpValue::Null,
        AmqpValue::Boolean(x) => AmqpValue::Boolean(*x),
        AmqpValue::UByte(x) => AmqpValue::UByte(*x),
        AmqpValue::UShort(x) => AmqpValue::UShort(*x),
        AmqpValue::UInt(x) => AmqpValue::UInt(*x),
        AmqpValue::ULong(x) => AmqpValue::ULong(*x),
        AmqpValue::Byte(x) => AmqpValue::Byte(*x),
        AmqpValue::Short(x) => AmqpValue::Short(*x),
        AmqpValue::Int(x) => AmqpValue::Int(*x),
        AmqpValue::Long(x) => AmqpValue::Long(*x),
        AmqpValue::TimeStamp(x) => AmqpValue::TimeStamp(*x),
        AmqpValue::Binary(x) => AmqpValue::Binary(clone_bytes(x)),
        AmqpValue::String(x) => AmqpValue::String(x.clone()),
        AmqpValue::Symbol(x) => AmqpValue::Symbol(x.clone()),
        AmqpValue::List(x) => {
            proof {
                assert(v->List_0 == *x);
            }
            let items = clone_list(x);
            proof {
                lemma_list_value_view(*x);
                lemma_list_value_view(items);
            }
            AmqpValue::List(items)
        },
        AmqpValue::Dict(x) => {
            proof {
                assert(v->Dict_0 == *x);
            }
            let m = clone_dict(x);
            proof {
                lemma_dict_value_view(*x);
                lemma_dict_value_view(m);
            }
            AmqpValue::Dict(m)
        },
    }
}

impl Clone for AmqpValue {
    fn clone(&self) -> (r: Self)
        ensures
            r@ == self@,
    {
        clone_value(self)
    }
}

impl MapKey for AmqpValue {
    fn key_eq(&self, other: &Self) -> (r: bool) {
        eq_value(self, other)
    }
}

} // verus!
