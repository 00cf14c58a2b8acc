//! Annotation keys, and the maps that the sections of a message hold.
//!
//! A section map is a map value whose keys are all of one admissible kind:
//! an integer code or a symbol for annotations, text for application
//! properties. This module turns the one into the other, both ways.

use crate::error::AmqpError;
use crate::ordered_map::collect;
use crate::ordered_map::distinct_keys;
use crate::ordered_map::pairs_view;
use crate::ordered_map::AmqpOrderedMap;
use crate::ordered_map::MapKey;
use crate::value::clone_value;
use crate::value::lemma_dict_value_view;
use crate::value::AmqpSymbol;
use crate::value::AmqpValue;
use crate::value::ValueModel;
use vstd::prelude::*;

verus! {

/// What an annotation key is: an integer code or a symbolic name.
pub enum KeyModel {
    Ulong(u64),
    Symbol(Seq<char>),
}

/// A key of an annotation map: an integer code or a symbolic name.
#[derive(Debug, PartialEq, Eq)]
pub enum AmqpAnnotationKey {
    Ulong(u64),
    Symbol(AmqpSymbol),
}

impl View for AmqpAnnotationKey {
    type V = KeyModel;

    open spec fn view(&self) -> KeyModel {
        match self {
            AmqpAnnotationKey::Ulong(n) => KeyModel::Ulong(*n),
            AmqpAnnotationKey::Symbol(s) => KeyModel::Symbol(s@),
        }
    }
}

impl AmqpAnnotationKey {
    /// The key that is the integer code `code`.
    pub fn from_ulong(code: u64) -> (k: Self)
        ensures
            k@ == KeyModel::Ulong(code),
    {
        AmqpAnnotationKey::Ulong(code)
    }

    /// The key that is the symbol `name`.
    pub fn from_symbol(name: AmqpSymbol) -> (k: Self)
        ensures
            k@ == KeyModel::Symbol(name@),
    {
        AmqpAnnotationKey::Symbol(name)
    }
}

impl Clone for AmqpAnnotationKey {
    fn clone(&self) -> (r: Self)
        ensures
            r@ == self@,
    {
        match self {
            AmqpAnnotationKey::Ulong(n) => AmqpAnnotationKey::Ulong(*n),
            AmqpAnnotationKey::Symbol(s) => AmqpAnnotationKey::Symbol(s.clone()),
        }
    }
}

impl MapKey for AmqpAnnotationKey {
    fn key_eq(&self, other: &Self) -> (r: bool) {
        match self {
            AmqpAnnotationKey::Ulong(x) => match other {
                AmqpAnnotationKey::Ulong(y) => *x == *y,
                _ => false,
            },
            AmqpAnnotationKey::Symbol(x) => match other {
                AmqpAnnotationKey::Symbol(y) => *x == *y,
                _ => false,
            },
        }
    }
}

/// `i` is a place at which `a` is seen to come before `b`: up to there the
/// two are alike, and there `a` ends while `b` goes on, or `a` has the
/// smaller byte.
pub open spec fn precedes_at(a: Seq<u8>, b: Seq<u8>, i: int) -> bool {
    &&& 0 <= i <= a.len()
    &&& i < b.len()
    &&& forall|j: int| 0 <= j < i ==> a[j] == b[j]
    &&& i < a.len() ==> a[i] < b[i]
}

/// `a` comes before `b` in the order of the dictionary.
pub open spec fn bytes_precede(a: Seq<u8>, b: Seq<u8>) -> bool {
    exists|i: int| precedes_at(a, b, i)
}

/// The order of annotation keys: an integer code comes before every symbol,
/// codes are ordered as numbers, and symbols as their encodings are in the
/// dictionary.
pub open spec fn key_precedes(a: KeyModel, b: KeyModel) -> bool {
    match (a, b) {
        (KeyModel::Ulong(x), KeyModel::Ulong(y)) => x < y,
        (KeyModel::Ulong(_), KeyModel::Symbol(_)) => true,
        (KeyModel::Symbol(_), KeyModel::Ulong(_)) => false,
        (KeyModel::Symbol(s), KeyModel::Symbol(t)) => bytes_precede(
            vstd::utf8::encode_utf8(s),
            vstd::utf8::encode_utf8(t),
        ),
    }
}

/// Of two runs of bytes, one comes before the other or they are the same,
/// and only one of the three holds.
pub proof fn lemma_bytes_trichotomy(a: Seq<u8>, b: Seq<u8>)
    ensures
        bytes_precede(a, b) || a == b || bytes_precede(b, a),
        !(bytes_precede(a, b) && a == b),
        !(bytes_precede(a, b) && bytes_precede(b, a)),
{
    if bytes_precede(a, b) {
        let i = choose|i: int| precedes_at(a, b, i);
        if a == b {
            assert(a[i] == b[i]);
        }
        if bytes_precede(b, a) {
            let k = choose|k: int| precedes_at(b, a, k);
            if i < k {
                assert(b[i] == a[i]);
            } else if k < i {
                assert(a[k] == b[k]);
            }
        }
    } else if a != b {
        lemma_first_difference(a, b, 0);
    }
}

/// Two runs that are alike up to `from` and do not come one before the other
/// are the same.
proof fn lemma_first_difference(a: Seq<u8>, b: Seq<u8>, from: int)
    requires
        0 <= from <= a.len(),
        from <= b.len(),
        forall|j: int| 0 <= j < from ==> a[j] == b[j],
        !bytes_precede(a, b),
        a != b,
    ensures
        bytes_precede(b, a),
    decreases a.len() - from,
{
    if from == a.len() {
        if from < b.len() {
            assert(precedes_at(a, b, from));
        } else {
            assert(a =~= b);
        }
    } else if from == b.len() {
        assert(precedes_at(b, a, from));
    } else if a[from] < b[from] {
        assert(precedes_at(a, b, from));
    } else if b[from] < a[from] {
        assert(precedes_at(b, a, from));
    } else {
        lemma_first_difference(a, b, from + 1);
    }
}

/// What comes before something that comes before a third comes before the
/// third.
pub proof fn lemma_bytes_transitive(a: Seq<u8>, b: Seq<u8>, c: Seq<u8>)
    requires
        bytes_precede(a, b),
        bytes_precede(b, c),
    ensures
        bytes_precede(a, c),
{
    let i = choose|i: int| precedes_at(a, b, i);
    let k = choose|k: int| precedes_at(b, c, k);
    if i <= k {
        assert forall|j: int| 0 <= j < i implies a[j] == c[j] by {
            assert(a[j] == b[j]);
            assert(b[j] == c[j]);
        }
        if i < k {
            assert(b[i] == c[i]);
        }
        assert(precedes_at(a, c, i));
    } else {
        assert forall|j: int| 0 <= j < k implies a[j] == c[j] by {
            assert(a[j] == b[j]);
            assert(b[j] == c[j]);
        }
        assert(a[k] == b[k]);
        assert(precedes_at(a, c, k));
    }
}

/// The order of annotation keys is total: of two keys, one comes before the
/// other or they are the same key, and only one of the three holds.
pub proof fn lemma_key_trichotomy(a: KeyModel, b: KeyModel)
    ensures
        key_precedes(a, b) || a == b || key_precedes(b, a),
        !(key_precedes(a, b) && a == b),
        !(key_precedes(a, b) && key_precedes(b, a)),
{
    match (a, b) {
        (KeyModel::Symbol(s), KeyModel::Symbol(t)) => {
            lemma_bytes_trichotomy(vstd::utf8::encode_utf8(s), vstd::utf8::encode_utf8(t));
            vstd::utf8::encode_utf8_decode_utf8(s);
            vstd::utf8::encode_utf8_decode_utf8(t);
        },
        _ => {},
    }
}

/// The order of annotation keys is transitive.
pub proof fn lemma_key_transitive(a: KeyModel, b: KeyModel, c: KeyModel)
    requires
        key_precedes(a, b),
        key_precedes(b, c),
    ensures
        key_precedes(a, c),
{
    match (a, b, c) {
        (KeyModel::Symbol(s), KeyModel::Symbol(t), KeyModel::Symbol(u)) => {
            lemma_bytes_transitive(
                vstd::utf8::encode_utf8(s),
                vstd::utf8::encode_utf8(t),
                vstd::utf8::encode_utf8(u),
            );
        },
        _ => {},
    }
}

/// Whether `a` comes before `b` in the order of the dictionary.
pub fn bytes_before(a: &[u8], b: &[u8]) -> (r: bool)
    ensures
        r == bytes_precede(a@, b@),
{
    let mut i: usize = 0;
    while i < a.len() && i < b.len()
        invariant
            i <= a@.len(),
            i <= b@.len(),
            forall|j: int| 0 <= j < i ==> a@[j] == b@[j],
        decreases a@.len() - i,
    {
        if a[i] != b[i] {
            if a[i] < b[i] {
                assert(precedes_at(a@, b@, i as int));
                return true;
            }
            assert forall|k: int| !precedes_at(a@, b@, k) by {
                if precedes_at(a@, b@, k) {
                    if k > i {
                        assert(a@[i as int] == b@[i as int]);
                    } else if k < i {
                        assert(a@[k] == b@[k]);
                    }
                }
            }
            return false;
        }
        i = i + 1;
    }
    if a.len() < b.len() {
        assert(precedes_at(a@, b@, i as int));
        true
    } else {
        assert forall|k: int| !precedes_at(a@, b@, k) by {
            if precedes_at(a@, b@, k) {
                assert(a@[k] == b@[k]);
            }
        }
        false
    }
}

impl AmqpAnnotationKey {
    /// Whether this key comes before `other` in the order of keys.
    pub fn precedes(&self, other: &Self) -> (r: bool)
        ensures
            r == key_precedes(self@, other@),
    {
        match self {
            AmqpAnnotationKey::Ulong(x) => match other {
                AmqpAnnotationKey::Ulong(y) => *x < *y,
                AmqpAnnotationKey::Symbol(_) => true,
            },
            AmqpAnnotationKey::Symbol(s) => match other {
                AmqpAnnotationKey::Ulong(_) => false,
                AmqpAnnotationKey::Symbol(t) => bytes_before(
                    s.as_str().as_bytes(),
                    t.as_str().as_bytes(),
                ),
            },
        }
    }
}

/// A key of a section map: it has a value that stands for it, and the values
/// that stand for keys can be told from all others.
pub trait SectionKey: MapKey {
    /// The value that stands for the key.
    spec fn key_value(k: Self::V) -> ValueModel;

    /// The key that a value stands for, where it stands for one.
    spec fn value_key(v: ValueModel) -> Option<Self::V>;

    /// The value of a key stands for that key and is well formed.
    proof fn lemma_key_of_value(k: Self::V)
        ensures
            Self::value_key(Self::key_value(k)) == Some(k),
            crate::value::value_wf(Self::key_value(k)),
    ;

    /// A value that stands for a key is the value of that key.
    proof fn lemma_value_of_key(v: ValueModel)
        requires
            Self::value_key(v) is Some,
        ensures
            Self::key_value(Self::value_key(v)->0) == v,
    ;

    fn to_value(&self) -> (v: AmqpValue)
        ensures
            v@ == Self::key_value(self@),
    ;

    fn from_value(v: &AmqpValue) -> (r: Option<Self>)
        ensures
            match r {
                Some(k) => Self::value_key(v@) == Some(k@),
                None => Self::value_key(v@) is None,
            },
    ;
}

impl SectionKey for AmqpAnnotationKey {
    open spec fn key_value(k: KeyModel) -> ValueModel {
        match k {
            KeyModel::Ulong(n) => ValueModel::ULong(n),
            KeyModel::Symbol(s) => ValueModel::Symbol(s),
        }
    }

    open spec fn value_key(v: ValueModel) -> Option<KeyModel> {
        match v {
            ValueModel::ULong(n) => Some(KeyModel::Ulong(n)),
            ValueModel::Symbol(s) => Some(KeyModel::Symbol(s)),
            _ => None,
        }
    }

    proof fn lemma_key_of_value(k: KeyModel) {
    }

    proof fn lemma_value_of_key(v: ValueModel) {
    }

    fn to_value(&self) -> (v: AmqpValue) {
        match self {
            AmqpAnnotationKey::Ulong(n) => AmqpValue::ULong(*n),
            AmqpAnnotationKey::Symbol(s) => AmqpValue::Symbol(s.clone()),
        }
    }

    fn from_value(v: &AmqpValue) -> (r: Option<Self>) {
        match v {
            AmqpValue::ULong(n) => Some(AmqpAnnotationKey::Ulong(*n)),
            AmqpValue::Symbol(s) => Some(AmqpAnnotationKey::Symbol(s.clone())),
            _ => None,
        }
    }
}

impl SectionKey for String {
    open spec fn key_value(k: Seq<char>) -> ValueModel {
        ValueModel::String(k)
    }

    open spec fn value_key(v: ValueModel) -> Option<Seq<char>> {
        match v {
            ValueModel::String(s) => Some(s),
            _ => None,
        }
    }

    proof fn lemma_key_of_value(k: Seq<char>) {
    }

    proof fn lemma_value_of_key(v: ValueModel) {
    }

    fn to_value(&self) -> (v: AmqpValue) {
        AmqpValue::String(self.clone())
    }

    fn from_value(v: &AmqpValue) -> (r: Option<Self>) {
        match v {
            AmqpValue::String(s) => Some(s.clone()),
            _ => None,
        }
    }
}

/// Delivery annotations, message annotations and the footer: values under
/// integer codes or symbols.
pub type AmqpAnnotations = AmqpOrderedMap<AmqpAnnotationKey, AmqpValue>;

/// Application properties: values under text keys.
pub type AmqpApplicationProperties = AmqpOrderedMap<String, AmqpValue>;

/// The entries of a section map as entries of a map value.
pub open spec fn value_pairs<K: SectionKey>(entries: Seq<(K::V, ValueModel)>) -> Seq<
    (ValueModel, ValueModel),
> {
    Seq::new(entries.len(), |i: int| (K::key_value(entries[i].0), entries[i].1))
}

/// Every key of the map value stands for a key of the section.
pub open spec fn keys_admissible<K: SectionKey>(pairs: Seq<(ValueModel, ValueModel)>) -> bool {
    forall|i: int| 0 <= i < pairs.len() ==> K::value_key((#[trigger] pairs[i]).0) is Some
}

/// The entries of a map value as entries of a section map.
pub open spec fn section_pairs<K: SectionKey>(pairs: Seq<(ValueModel, ValueModel)>) -> Seq<
    (K::V, ValueModel),
> {
    Seq::new(pairs.len(), |i: int| (K::value_key(pairs[i].0)->0, pairs[i].1))
}

/// The map value that stands for a section map.
pub open spec fn section_value<K: SectionKey>(entries: Seq<(K::V, ValueModel)>) -> ValueModel {
    ValueModel::Dict(value_pairs::<K>(entries))
}

/// The section map that a value stands for: the value is a map and all its
/// keys are admissible.
pub open spec fn value_section<K: SectionKey>(v: ValueModel) -> Option<Seq<(K::V, ValueModel)>> {
    match v {
        ValueModel::Dict(pairs) => if keys_admissible::<K>(pairs) {
            Some(section_pairs::<K>(pairs))
        } else {
            None
        },
        _ => None,
    }
}

/// A section map is well formed where no key occurs twice and every value is
/// well formed.
pub open spec fn section_wf<KV>(entries: Seq<(KV, ValueModel)>) -> bool {
    &&& distinct_keys(entries)
    &&& forall|i: int| 0 <= i < entries.len() ==> crate::value::value_wf((#[trigger] entries[i]).1)
}

/// Turning a section map into a map value and back gives the section map.
pub proof fn lemma_section_of_value<K: SectionKey>(entries: Seq<(K::V, ValueModel)>)
    ensures
        value_section::<K>(section_value::<K>(entries)) == Some(entries),
        section_wf(entries) ==> crate::value::value_wf(section_value::<K>(entries)),
{
    let pairs = value_pairs::<K>(entries);
    assert forall|i: int| 0 <= i < pairs.len() implies K::value_key((#[trigger] pairs[i]).0)
        == Some(entries[i].0) && crate::value::value_wf(pairs[i].0) by {
        K::lemma_key_of_value(entries[i].0);
    }
    assert(section_pairs::<K>(pairs) =~= entries);
    if section_wf(entries) {
        assert forall|i: int, j: int| 0 <= i < j < pairs.len() implies (#[trigger] pairs[i]).0 != (
        #[trigger] pairs[j]).0 by {
            assert(K::value_key(pairs[i].0) == Some(entries[i].0));
            assert(K::value_key(pairs[j].0) == Some(entries[j].0));
        }
        assert forall|i: int| 0 <= i < pairs.len() implies crate::value::value_wf(
            (#[trigger] pairs[i]).0,
        ) && crate::value::value_wf(pairs[i].1) by {
            assert(crate::value::value_wf(entries[i].1));
        }
    }
}

/// Turning a map value with admissible keys into a section map and back gives
/// the map value; the section map is well formed where the value is.
pub proof fn lemma_value_of_section<K: SectionKey>(v: ValueModel)
    requires
        value_section::<K>(v) is Some,
    ensures
        section_value::<K>(value_section::<K>(v)->0) == v,
        crate::value::value_wf(v) ==> section_wf(value_section::<K>(v)->0),
{
    let pairs = v->Dict_0;
    let entries = section_pairs::<K>(pairs);
    assert forall|i: int| 0 <= i < pairs.len() implies K::key_value(entries[i].0) == (
    #[trigger] pairs[i]).0 by {
        K::lemma_value_of_key(pairs[i].0);
    }
    assert(value_pairs::<K>(entries) =~= pairs);
    if crate::value::value_wf(v) {
        assert forall|i: int, j: int| 0 <= i < j < entries.len() implies (
        #[trigger] entries[i]).0 != (#[trigger] entries[j]).0 by {
            assert(K::key_value(entries[i].0) == pairs[i].0);
            assert(K::key_value(entries[j].0) == pairs[j].0);
        }
        assert forall|i: int| 0 <= i < entries.len() implies crate::value::value_wf(
            (#[trigger] entries[i]).1,
        ) by {
            assert(crate::value::value_wf(pairs[i].1));
        }
    }
}

/// The section map that the entries of a map value build when they are put
/// into an empty map one after the other: a key that comes again keeps its
/// first place and takes the later value.
pub open spec fn built_section<K: SectionKey>(v: ValueModel) -> Seq<(K::V, ValueModel)> {
    collect(value_section::<K>(v)->0, value_section::<K>(v)->0.len())
}

/// A well-formed map value builds the section map that it stands for, entry
/// by entry, and that section map is well formed.
pub proof fn lemma_built_section<K: SectionKey>(v: ValueModel)
    requires
        value_section::<K>(v) is Some,
    ensures
        distinct_keys(built_section::<K>(v)),
        crate::value::value_wf(v) ==> built_section::<K>(v) == value_section::<K>(v)->0
            && section_wf(built_section::<K>(v)),
{
    let entries = value_section::<K>(v)->0;
    crate::ordered_map::lemma_collect_distinct(entries, entries.len());
    if crate::value::value_wf(v) {
        lemma_value_of_section::<K>(v);
        crate::ordered_map::lemma_collect_preserves_order(entries, entries.len());
        assert(entries.take(entries.len() as int) =~= entries);
    }
}

/// The map value that stands for a section map. Its entries are copies.
pub fn section_to_value<K: SectionKey>(map: &AmqpOrderedMap<K, AmqpValue>) -> (v: AmqpValue)
    ensures
        v@ == section_value::<K>(map@),
{
    let mut out: Vec<(AmqpValue, AmqpValue)> = Vec::new();
    let mut i: usize = 0;
    while i < map.len()
        invariant
            i <= map@.len(),
            out@.len() == i,
            forall|j: int| 0 <= j < i ==> pairs_view(out@)[j] == value_pairs::<K>(map@)[j],
        decreases map@.len() - i,
    {
        let k = map.key_at(i).to_value();
        let w = clone_value(map.value_at(i));
        let ghost before = out@;
        out.push((k, w));
        assert forall|j: int| 0 <= j <= i implies pairs_view(out@)[j] == value_pairs::<K>(
            map@,
        )[j] by {
            if j < i {
                assert(pairs_view(before)[j] == value_pairs::<K>(map@)[j]);
            }
        }
        i = i + 1;
    }
    assert(pairs_view(out@) =~= value_pairs::<K>(map@));
    assert forall|i: int, j: int|
        0 <= i < j < out@.len() && (#[trigger] out@[i]).0@ == (#[trigger] out@[j]).0@ implies map.pairs()[i].0@
        == map.pairs()[j].0@ by {
        assert(pairs_view(out@)[i] == value_pairs::<K>(map@)[i]);
        assert(pairs_view(out@)[j] == value_pairs::<K>(map@)[j]);
        K::lemma_key_of_value(map@[i].0);
        K::lemma_key_of_value(map@[j].0);
    }
    let m = map.rebuilt(out);
    proof {
        lemma_dict_value_view(m);
    }
    AmqpValue::Dict(m)
}

/// The section map that a value stands for. `MapRequired` where the value is
/// no map; `KeyTypeRequired` where it is a map and one of its keys is not
/// admissible. Where a key comes twice in the value, the later value wins and
/// the key stays where it first stood.
pub fn section_from_value<K: SectionKey>(value: &AmqpValue) -> (r: Result<
    AmqpOrderedMap<K, AmqpValue>,
    AmqpError,
>)
    ensures
        match r {
            Ok(map) => value_section::<K>(value@) is Some && map@ == built_section::<K>(value@)
                && map.wf(),
            Err(e) => if value@ is Dict {
                e == AmqpError::KeyTypeRequired && value_section::<K>(value@) is None
            } else {
                e == AmqpError::MapRequired
            },
        },
        r is Ok && crate::value::value_wf(value@) ==> r->Ok_0@ == value_section::<K>(value@)->0,
{
    match value {
        AmqpValue::Dict(m) => {
            proof {
                lemma_dict_value_view(*m);
            }
            let mut out: Vec<(K, AmqpValue)> = Vec::new();
            let mut i: usize = 0;
            while i < m.len()
                invariant
                    i <= m@.len(),
                    out@.len() == i,
                    value@ == ValueModel::Dict(m@),
                    forall|j: int|
                        0 <= j < i ==> K::value_key((#[trigger] m@[j]).0) is Some,
                    forall|j: int|
                        0 <= j < i ==> pairs_view(out@)[j] == section_pairs::<K>(m@)[j],
                decreases m@.len() - i,
            {
                match K::from_value(m.key_at(i)) {
                    Some(k) => {
                        let w = clone_value(m.value_at(i));
                        let ghost before = out@;
                        out.push((k, w));
                        assert forall|j: int| 0 <= j <= i implies pairs_view(out@)[j]
                            == section_pairs::<K>(m@)[j] by {
                            if j < i {
                                assert(pairs_view(before)[j] == section_pairs::<K>(m@)[j]);
                            }
                        }
                    },
                    None => {
                        assert(K::value_key(m@[i as int].0) is None);
                        return Err(AmqpError::KeyTypeRequired);
                    },
                }
                i = i + 1;
            }
            assert(pairs_view(out@) =~= section_pairs::<K>(m@));
            proof {
                if crate::value::value_wf(value@) {
                    lemma_value_of_section::<K>(value@);
                }
            }
            Ok(AmqpOrderedMap::from_pairs(out))
        },
        _ => Err(AmqpError::MapRequired),
    }
}

} // verus!
