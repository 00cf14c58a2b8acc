//! The encoding of a value: one tag byte, then what the tag calls for.
//!
//! Numbers are big-endian and of fixed width. Byte strings, text and symbols
//! are an eight-byte length and the bytes. Lists and maps are an eight-byte
//! count and the encoded items, for a map key and value in turn.

use crate::ordered_map::distinct_keys;
use crate::value::list_fits;
use crate::value::list_wf;
use crate::value::pairs_fits;
use crate::value::pairs_wf;
use crate::value::value_fits;
use crate::value::value_wf;
use crate::ordered_map::pairs_view;
use crate::ordered_map::AmqpOrderedMap;
use crate::text::decode_text;
use crate::value::lemma_dict_value_view;
use crate::value::lemma_list_value_view;
use crate::value::list_view;
use crate::value::AmqpValue;
use crate::value::ValueModel;
use crate::wire::copy_range;
use crate::wire::lemma_pow256_values;
use crate::wire::pow256;
use crate::wire::push_all;
use crate::wire::push_be;
use crate::wire::read_be;
use crate::wire::signed_bits;
use crate::wire::signed_from_bits;
use crate::wire::be_bytes;
use crate::wire::be_value;
use crate::wire::holds_at;
use crate::wire::twos;
use crate::wire::untwos;
use vstd::prelude::*;
use vstd::utf8::decode_utf8;
use vstd::utf8::encode_utf8;
use vstd::utf8::valid_utf8;

verus! {

/// The tag of the null value.
pub const TAG_NULL: u8 = 0x40;

/// The tag of the boolean true, which has no further bytes.
pub const TAG_TRUE: u8 = 0x41;

/// The tag of the boolean false, which has no further bytes.
pub const TAG_FALSE: u8 = 0x42;

/// The tag of an unsigned number of one byte.
pub const TAG_UBYTE: u8 = 0x50;

/// The tag of a signed number of one byte.
pub const TAG_BYTE: u8 = 0x51;

/// The tag of an unsigned number of two bytes.
pub const TAG_USHORT: u8 = 0x60;

/// The tag of a signed number of two bytes.
pub const TAG_SHORT: u8 = 0x61;

/// The tag of an unsigned number of four bytes.
pub const TAG_UINT: u8 = 0x70;

/// The tag of a signed number of four bytes.
pub const TAG_INT: u8 = 0x71;

/// The tag of an unsigned number of eight bytes.
pub const TAG_ULONG: u8 = 0x80;

/// The tag of a signed number of eight bytes.
pub const TAG_LONG: u8 = 0x81;

/// The tag of a point in time, a signed number of eight bytes.
pub const TAG_TIMESTAMP: u8 = 0x83;

/// The tag of a byte string.
pub const TAG_BINARY: u8 = 0xb0;

/// The tag of a text string.
pub const TAG_STRING: u8 = 0xb1;

/// The tag of a symbol.
pub const TAG_SYMBOL: u8 = 0xb3;

/// The tag of a list.
pub const TAG_LIST: u8 = 0xd0;

/// The tag of a map.
pub const TAG_MAP: u8 = 0xd1;

/// A run of bytes behind its length.
pub open spec fn sized(payload: Seq<u8>) -> Seq<u8> {
    be_bytes(payload.len() as int, 8) + payload
}

/// The encoding of a value.
pub open spec fn enc_value(v: ValueModel) -> Seq<u8>
    decreases v,
{
    match v {
        ValueModel::Null => seq![TAG_NULL],
        ValueModel::Boolean(b) => seq![if b { TAG_TRUE } else { TAG_FALSE }],
        ValueModel::UByte(n) => seq![TAG_UBYTE] + be_bytes(n as int, 1),
        ValueModel::UShort(n) => seq![TAG_USHORT] + be_bytes(n as int, 2),
        ValueModel::UInt(n) => seq![TAG_UINT] + be_bytes(n as int, 4),
        ValueModel::ULong(n) => seq![TAG_ULONG] + be_bytes(n as int, 8),
        ValueModel::Byte(n) => seq![TAG_BYTE] + be_bytes(twos(n as int, 1), 1),
        ValueModel::Short(n) => seq![TAG_SHORT] + be_bytes(twos(n as int, 2), 2),
        ValueModel::Int(n) => seq![TAG_INT] + be_bytes(twos(n as int, 4), 4),
        ValueModel::Long(n) => seq![TAG_LONG] + be_bytes(twos(n as int, 8), 8),
        ValueModel::TimeStamp(n) => seq![TAG_TIMESTAMP] + be_bytes(twos(n as int, 8), 8),
        ValueModel::Binary(b) => seq![TAG_BINARY] + sized(b),
        ValueModel::String(s) => seq![TAG_STRING] + sized(encode_utf8(s)),
        ValueModel::Symbol(s) => seq![TAG_SYMBOL] + sized(encode_utf8(s)),
        ValueModel::List(items) => seq![TAG_LIST] + (be_bytes(items.len() as int, 8) + enc_items(
            items,
            items.len(),
        )),
        ValueModel::Dict(pairs) => seq![TAG_MAP] + (be_bytes(pairs.len() as int, 8) + enc_pairs(
            pairs,
            pairs.len(),
        )),
    }
}

/// The encodings of the first `n` values of `items`, one after the other.
pub open spec fn enc_items(items: Seq<ValueModel>, n: nat) -> Seq<u8>
    decreases items, n,
{
    if n == 0 || n > items.len() {
        Seq::empty()
    } else {
        enc_items(items, (n - 1) as nat) + enc_value(items[n - 1])
    }
}

/// The encodings of the first `n` entries of `pairs`, key before value.
pub open spec fn enc_pairs(pairs: Seq<(ValueModel, ValueModel)>, n: nat) -> Seq<u8>
    decreases pairs, n,
{
    if n == 0 || n > pairs.len() {
        Seq::empty()
    } else {
        enc_pairs(pairs, (n - 1) as nat) + (enc_value(pairs[n - 1].0) + enc_value(pairs[n - 1].1))
    }
}

/// The number that the `width` bytes from `pos` on hold.
pub open spec fn parse_fixed(b: Seq<u8>, pos: int, width: nat) -> Option<int> {
    if 0 <= pos && pos + width <= b.len() {
        Some(be_value(b.subrange(pos, pos + width)))
    } else {
        None
    }
}

/// The run of bytes that stands at `pos` behind its length, and where it ends.
pub open spec fn parse_sized(b: Seq<u8>, pos: int) -> Option<(Seq<u8>, int)> {
    match parse_fixed(b, pos, 8) {
        Some(n) => if pos + 8 + n <= b.len() {
            Some((b.subrange(pos + 8, pos + 8 + n), pos + 8 + n))
        } else {
            None
        },
        None => None,
    }
}

/// The text that stands at `pos` behind its length, and where it ends.
pub open spec fn parse_text(b: Seq<u8>, pos: int) -> Option<(Seq<char>, int)> {
    match parse_sized(b, pos) {
        Some((payload, end)) => if valid_utf8(payload) {
            Some((decode_utf8(payload), end))
        } else {
            None
        },
        None => None,
    }
}

/// The value whose encoding starts at `pos`, and where that encoding ends.
/// `None` where no encoding of a value starts there.
pub open spec fn parse_value(b: Seq<u8>, pos: int) -> Option<(ValueModel, int)>
    decreases b.len() - pos, 0nat,
{
    if pos < 0 || pos >= b.len() {
        None
    } else {
        let tag = b[pos];
        let p = pos + 1;
        if tag == TAG_NULL {
            Some((ValueModel::Null, p))
        } else if tag == TAG_TRUE {
            Some((ValueModel::Boolean(true), p))
        } else if tag == TAG_FALSE {
            Some((ValueModel::Boolean(false), p))
        } else if tag == TAG_UBYTE {
            match parse_fixed(b, p, 1) {
                Some(n) => Some((ValueModel::UByte(n as u8), p + 1)),
                None => None,
            }
        } else if tag == TAG_USHORT {
            match parse_fixed(b, p, 2) {
                Some(n) => Some((ValueModel::UShort(n as u16), p + 2)),
                None => None,
            }
        } else if tag == TAG_UINT {
            match parse_fixed(b, p, 4) {
                Some(n) => Some((ValueModel::UInt(n as u32), p + 4)),
                None => None,
            }
        } else if tag == TAG_ULONG {
            match parse_fixed(b, p, 8) {
                Some(n) => Some((ValueModel::ULong(n as u64), p + 8)),
                None => None,
            }
        } else if tag == TAG_BYTE {
            match parse_fixed(b, p, 1) {
                Some(n) => Some((ValueModel::Byte(untwos(n, 1) as i8), p + 1)),
                None => None,
            }
        } else if tag == TAG_SHORT {
            match parse_fixed(b, p, 2) {
                Some(n) => Some((ValueModel::Short(untwos(n, 2) as i16), p + 2)),
                None => None,
            }
        } else if tag == TAG_INT {
            match parse_fixed(b, p, 4) {
                Some(n) => Some((ValueModel::Int(untwos(n, 4) as i32), p + 4)),
                None => None,
            }
        } else if tag == TAG_LONG {
            match parse_fixed(b, p, 8) {
                Some(n) => Some((ValueModel::Long(untwos(n, 8) as i64), p + 8)),
                None => None,
            }
        } else if tag == TAG_TIMESTAMP {
            match parse_fixed(b, p, 8) {
                Some(n) => Some((ValueModel::TimeStamp(untwos(n, 8) as i64), p + 8)),
                None => None,
            }
        } else if tag == TAG_BINARY {
            match parse_sized(b, p) {
                Some((payload, end)) => Some((ValueModel::Binary(payload), end)),
                None => None,
            }
        } else if tag == TAG_STRING {
            match parse_text(b, p) {
                Some((text, end)) => Some((ValueModel::String(text), end)),
                None => None,
            }
        } else if tag == TAG_SYMBOL {
            match parse_text(b, p) {
                Some((text, end)) => Some((ValueModel::Symbol(text), end)),
                None => None,
            }
        } else if tag == TAG_LIST {
            match parse_fixed(b, p, 8) {
                Some(count) => match parse_items(b, p + 8, count as nat) {
                    Some((items, end)) => Some((ValueModel::List(items), end)),
                    None => None,
                },
                None => None,
            }
        } else if tag == TAG_MAP {
            match parse_fixed(b, p, 8) {
                Some(count) => match parse_pairs(b, p + 8, count as nat) {
                    Some((pairs, end)) => if distinct_keys(pairs) {
                        Some((ValueModel::Dict(pairs), end))
                    } else {
                        None
                    },
                    None => None,
                },
                None => None,
            }
        } else {
            None
        }
    }
}

/// The `count` values whose encodings stand one after the other from `pos`
/// on, and where the last one ends.
pub open spec fn parse_items(b: Seq<u8>, pos: int, count: nat) -> Option<(Seq<ValueModel>, int)>
    decreases b.len() - pos, count + 1,
{
    if pos < 0 || pos > b.len() {
        None
    } else if count == 0 {
        Some((Seq::empty(), pos))
    } else {
        match parse_items(b, pos, (count - 1) as nat) {
            Some((items, mid)) => if mid < pos || mid > b.len() {
                None
            } else {
                match parse_value(b, mid) {
                    Some((v, end)) => Some((items.push(v), end)),
                    None => None,
                }
            },
            None => None,
        }
    }
}

/// The `count` entries whose encodings stand one after the other from `pos`
/// on, and where the last one ends.
pub open spec fn parse_pairs(b: Seq<u8>, pos: int, count: nat) -> Option<
    (Seq<(ValueModel, ValueModel)>, int),
>
    decreases b.len() - pos, count + 1,
{
    if pos < 0 || pos > b.len() {
        None
    } else if count == 0 {
        Some((Seq::empty(), pos))
    } else {
        match parse_pairs(b, pos, (count - 1) as nat) {
            Some((pairs, mid)) => if mid < pos || mid > b.len() {
                None
            } else {
                match parse_value(b, mid) {
                    Some((k, after_key)) => if after_key <= mid || after_key > b.len() {
                        None
                    } else {
                        match parse_value(b, after_key) {
                            Some((v, end)) => Some((pairs.push((k, v)), end)),
                            None => None,
                        }
                    },
                    None => None,
                }
            },
            None => None,
        }
    }
}

/// A tag in front of a run of bytes: where both stand, the tag stands first and
/// the run behind it.
pub proof fn lemma_tagged(b: Seq<u8>, pos: int, tag: u8, rest: Seq<u8>)
    ensures
        holds_at(b, pos, seq![tag] + rest) <==> 0 <= pos < b.len() && b[pos] == tag && holds_at(
            b,
            pos + 1,
            rest,
        ),
        (seq![tag] + rest).len() == 1 + rest.len(),
{
    let t = seq![tag];
    crate::wire::lemma_holds_at_concat(b, pos, t, rest);
    if holds_at(b, pos, t) {
        assert(b.subrange(pos, pos + 1)[0] == t[0]);
    }
    if 0 <= pos < b.len() && b[pos] == tag {
        assert(b.subrange(pos, pos + 1) =~= t);
    }
}

/// A number that was written with enough bytes is read back.
pub proof fn lemma_fixed_read_back(b: Seq<u8>, pos: int, n: int, width: nat)
    requires
        0 <= n < crate::wire::pow256(width),
        holds_at(b, pos, be_bytes(n, width)),
    ensures
        parse_fixed(b, pos, width) == Some(n),
        be_bytes(n, width).len() == width,
{
    crate::wire::lemma_be_bytes_len(n, width);
    crate::wire::lemma_be_value_of_bytes(n, width);
}

/// A number that is read stands there as it would be written.
pub proof fn lemma_fixed_written(b: Seq<u8>, pos: int, width: nat)
    requires
        parse_fixed(b, pos, width) is Some,
    ensures
        0 <= parse_fixed(b, pos, width)->0 < crate::wire::pow256(width),
        holds_at(b, pos, be_bytes(parse_fixed(b, pos, width)->0, width)),
        be_bytes(parse_fixed(b, pos, width)->0, width).len() == width,
{
    let s = b.subrange(pos, pos + width);
    crate::wire::lemma_be_value_bound(s);
    crate::wire::lemma_be_bytes_of_value(s);
}

/// A run of bytes that was written behind its length is read back.
pub proof fn lemma_sized_read_back(b: Seq<u8>, pos: int, payload: Seq<u8>)
    requires
        payload.len() <= u64::MAX,
        holds_at(b, pos, sized(payload)),
    ensures
        parse_sized(b, pos) == Some((payload, pos + 8 + payload.len())),
        sized(payload).len() == 8 + payload.len(),
{
    crate::wire::lemma_pow256_values();
    let n = payload.len() as int;
    crate::wire::lemma_holds_at_concat(b, pos, be_bytes(n, 8), payload);
    lemma_fixed_read_back(b, pos, n, 8);
}

/// A run of bytes that is read stands there as it would be written.
pub proof fn lemma_sized_written(b: Seq<u8>, pos: int, payload: Seq<u8>, end: int)
    requires
        parse_sized(b, pos) == Some((payload, end)),
    ensures
        payload.len() <= u64::MAX,
        end == pos + 8 + payload.len(),
        holds_at(b, pos, sized(payload)),
        sized(payload).len() == 8 + payload.len(),
{
    crate::wire::lemma_pow256_values();
    lemma_fixed_written(b, pos, 8);
    let n = parse_fixed(b, pos, 8)->0;
    crate::wire::lemma_holds_at_subrange(b, pos + 8, pos + 8 + n);
    crate::wire::lemma_holds_at_concat(b, pos, be_bytes(n, 8), payload);
}

/// The encoding of the first `n` items does not depend on what follows them.
pub proof fn lemma_enc_items_prefix(x: Seq<ValueModel>, y: Seq<ValueModel>, n: nat)
    requires
        n <= x.len(),
        n <= y.len(),
        forall|i: int| 0 <= i < n ==> x[i] == y[i],
    ensures
        enc_items(x, n) == enc_items(y, n),
    decreases n,
{
    if n > 0 {
        lemma_enc_items_prefix(x, y, (n - 1) as nat);
    }
}

/// The encoding of the first `n` entries does not depend on what follows
/// them.
pub proof fn lemma_enc_pairs_prefix(
    x: Seq<(ValueModel, ValueModel)>,
    y: Seq<(ValueModel, ValueModel)>,
    n: nat,
)
    requires
        n <= x.len(),
        n <= y.len(),
        forall|i: int| 0 <= i < n ==> x[i] == y[i],
    ensures
        enc_pairs(x, n) == enc_pairs(y, n),
    decreases n,
{
    if n > 0 {
        lemma_enc_pairs_prefix(x, y, (n - 1) as nat);
    }
}

/// Reading where a well-formed value was written gives that value and ends
/// where its encoding ends.
pub proof fn lemma_parse_enc_value(v: ValueModel, b: Seq<u8>, pos: int)
    requires
        value_wf(v),
        value_fits(v),
        holds_at(b, pos, enc_value(v)),
    ensures
        parse_value(b, pos) == Some((v, pos + enc_value(v).len())),
    decreases v, 0nat,
{
    crate::wire::lemma_pow256_values();
    match v {
        ValueModel::Null => {
            lemma_tagged(b, pos, TAG_NULL, Seq::empty());
            assert(enc_value(v) =~= seq![TAG_NULL] + Seq::empty());
        },
        ValueModel::Boolean(x) => {
            let tag = if x {
                TAG_TRUE
            } else {
                TAG_FALSE
            };
            lemma_tagged(b, pos, tag, Seq::empty());
            assert(enc_value(v) =~= seq![tag] + Seq::empty());
        },
        ValueModel::UByte(n) => {
            lemma_tagged(b, pos, TAG_UBYTE, be_bytes(n as int, 1));
            lemma_fixed_read_back(b, pos + 1, n as int, 1);
        },
        ValueModel::UShort(n) => {
            lemma_tagged(b, pos, TAG_USHORT, be_bytes(n as int, 2));
            lemma_fixed_read_back(b, pos + 1, n as int, 2);
        },
        ValueModel::UInt(n) => {
            lemma_tagged(b, pos, TAG_UINT, be_bytes(n as int, 4));
            lemma_fixed_read_back(b, pos + 1, n as int, 4);
        },
        ValueModel::ULong(n) => {
            lemma_tagged(b, pos, TAG_ULONG, be_bytes(n as int, 8));
            lemma_fixed_read_back(b, pos + 1, n as int, 8);
        },
        ValueModel::Byte(n) => {
            let u = twos(n as int, 1);
            crate::wire::lemma_twos_round_trip(n as int, 1);
            lemma_tagged(b, pos, TAG_BYTE, be_bytes(u, 1));
            lemma_fixed_read_back(b, pos + 1, u, 1);
        },
        ValueModel::Short(n) => {
            let u = twos(n as int, 2);
            crate::wire::lemma_twos_round_trip(n as int, 2);
            lemma_tagged(b, pos, TAG_SHORT, be_bytes(u, 2));
            lemma_fixed_read_back(b, pos + 1, u, 2);
        },
        ValueModel::Int(n) => {
            let u = twos(n as int, 4);
            crate::wire::lemma_twos_round_trip(n as int, 4);
            lemma_tagged(b, pos, TAG_INT, be_bytes(u, 4));
            lemma_fixed_read_back(b, pos + 1, u, 4);
        },
        ValueModel::Long(n) => {
            let u = twos(n as int, 8);
            crate::wire::lemma_twos_round_trip(n as int, 8);
            lemma_tagged(b, pos, TAG_LONG, be_bytes(u, 8));
            lemma_fixed_read_back(b, pos + 1, u, 8);
        },
        ValueModel::TimeStamp(n) => {
            let u = twos(n as int, 8);
            crate::wire::lemma_twos_round_trip(n as int, 8);
            lemma_tagged(b, pos, TAG_TIMESTAMP, be_bytes(u, 8));
            lemma_fixed_read_back(b, pos + 1, u, 8);
        },
        ValueModel::Binary(payload) => {
            lemma_tagged(b, pos, TAG_BINARY, sized(payload));
            lemma_sized_read_back(b, pos + 1, payload);
        },
        ValueModel::String(text) => {
            let payload = encode_utf8(text);
            lemma_tagged(b, pos, TAG_STRING, sized(payload));
            lemma_sized_read_back(b, pos + 1, payload);
            vstd::utf8::encode_utf8_valid_utf8(text);
            vstd::utf8::encode_utf8_decode_utf8(text);
        },
        ValueModel::Symbol(text) => {
            let payload = encode_utf8(text);
            lemma_tagged(b, pos, TAG_SYMBOL, sized(payload));
            lemma_sized_read_back(b, pos + 1, payload);
            vstd::utf8::encode_utf8_valid_utf8(text);
            vstd::utf8::encode_utf8_decode_utf8(text);
        },
        ValueModel::List(items) => {
            let n = items.len();
            let count = be_bytes(n as int, 8);
            let body = enc_items(items, n);
            lemma_tagged(b, pos, TAG_LIST, count + body);
            crate::wire::lemma_holds_at_concat(b, pos + 1, count, body);
            lemma_fixed_read_back(b, pos + 1, n as int, 8);
            lemma_parse_enc_items(items, n, b, pos + 9);
            assert(items.take(n as int) =~= items);
        },
        ValueModel::Dict(pairs) => {
            let n = pairs.len();
            let count = be_bytes(n as int, 8);
            let body = enc_pairs(pairs, n);
            lemma_tagged(b, pos, TAG_MAP, count + body);
            crate::wire::lemma_holds_at_concat(b, pos + 1, count, body);
            lemma_fixed_read_back(b, pos + 1, n as int, 8);
            lemma_parse_enc_pairs(pairs, n, b, pos + 9);
            assert(pairs.take(n as int) =~= pairs);
        },
    }
}

/// Reading where the first `n` items of a well-formed list were written gives
/// those items.
pub proof fn lemma_parse_enc_items(items: Seq<ValueModel>, n: nat, b: Seq<u8>, pos: int)
    requires
        n <= items.len(),
        list_wf(items),
        list_fits(items),
        holds_at(b, pos, enc_items(items, n)),
    ensures
        parse_items(b, pos, n) == Some((items.take(n as int), pos + enc_items(items, n).len())),
    decreases items, n,
{
    if n == 0 {
        assert(items.take(0) =~= Seq::<ValueModel>::empty());
    } else {
        let m = (n - 1) as nat;
        let head = enc_items(items, m);
        let last = enc_value(items[n - 1]);
        crate::wire::lemma_holds_at_concat(b, pos, head, last);
        lemma_parse_enc_items(items, m, b, pos);
        lemma_parse_enc_value(items[n - 1], b, pos + head.len());
        assert(items.take(m as int).push(items[n - 1]) =~= items.take(n as int));
    }
}

/// Reading where the first `n` entries of a well-formed map were written
/// gives those entries.
pub proof fn lemma_parse_enc_pairs(
    pairs: Seq<(ValueModel, ValueModel)>,
    n: nat,
    b: Seq<u8>,
    pos: int,
)
    requires
        n <= pairs.len(),
        pairs_wf(pairs),
        pairs_fits(pairs),
        holds_at(b, pos, enc_pairs(pairs, n)),
    ensures
        parse_pairs(b, pos, n) == Some((pairs.take(n as int), pos + enc_pairs(pairs, n).len())),
    decreases pairs, n,
{
    if n == 0 {
        assert(pairs.take(0) =~= Seq::<(ValueModel, ValueModel)>::empty());
    } else {
        let m = (n - 1) as nat;
        let head = enc_pairs(pairs, m);
        let key = enc_value(pairs[n - 1].0);
        let val = enc_value(pairs[n - 1].1);
        crate::wire::lemma_holds_at_concat(b, pos, head, key + val);
        crate::wire::lemma_holds_at_concat(b, pos + head.len(), key, val);
        lemma_parse_enc_pairs(pairs, m, b, pos);
        lemma_parse_enc_value(pairs[n - 1].0, b, pos + head.len());
        lemma_parse_enc_value(pairs[n - 1].1, b, pos + head.len() + key.len());
        lemma_enc_value_len(pairs[n - 1].0);
        assert(pairs.take(m as int).push(pairs[n - 1]) =~= pairs.take(n as int));
    }
}

/// Every encoding has at least its tag.
pub proof fn lemma_enc_value_len(v: ValueModel)
    ensures
        enc_value(v).len() >= 1,
{
}

/// Whatever is read as a value is well formed, fits, and stands there exactly
/// as it would be written: nothing else is accepted in its place.
pub proof fn lemma_enc_parse_value(b: Seq<u8>, pos: int, v: ValueModel, end: int)
    requires
        parse_value(b, pos) == Some((v, end)),
    ensures
        value_wf(v),
        value_fits(v),
        end == pos + enc_value(v).len(),
        holds_at(b, pos, enc_value(v)),
    decreases b.len() - pos, 0nat,
{
    crate::wire::lemma_pow256_values();
    let tag = b[pos];
    let p = pos + 1;
    if tag == TAG_NULL || tag == TAG_TRUE || tag == TAG_FALSE {
        lemma_tagged(b, pos, tag, Seq::empty());
        assert(enc_value(v) =~= seq![tag] + Seq::empty());
        assert(b.subrange(p, p) =~= Seq::<u8>::empty());
    } else if tag == TAG_UBYTE {
        lemma_fixed_written(b, p, 1);
        lemma_tagged(b, pos, tag, be_bytes(parse_fixed(b, p, 1)->0, 1));
    } else if tag == TAG_USHORT {
        lemma_fixed_written(b, p, 2);
        lemma_tagged(b, pos, tag, be_bytes(parse_fixed(b, p, 2)->0, 2));
    } else if tag == TAG_UINT {
        lemma_fixed_written(b, p, 4);
        lemma_tagged(b, pos, tag, be_bytes(parse_fixed(b, p, 4)->0, 4));
    } else if tag == TAG_ULONG {
        lemma_fixed_written(b, p, 8);
        lemma_tagged(b, pos, tag, be_bytes(parse_fixed(b, p, 8)->0, 8));
    } else if tag == TAG_BYTE {
        lemma_fixed_written(b, p, 1);
        crate::wire::lemma_untwos_round_trip(parse_fixed(b, p, 1)->0, 1);
        lemma_tagged(b, pos, tag, be_bytes(parse_fixed(b, p, 1)->0, 1));
    } else if tag == TAG_SHORT {
        lemma_fixed_written(b, p, 2);
        crate::wire::lemma_untwos_round_trip(parse_fixed(b, p, 2)->0, 2);
        lemma_tagged(b, pos, tag, be_bytes(parse_fixed(b, p, 2)->0, 2));
    } else if tag == TAG_INT {
        lemma_fixed_written(b, p, 4);
        crate::wire::lemma_untwos_round_trip(parse_fixed(b, p, 4)->0, 4);
        lemma_tagged(b, pos, tag, be_bytes(parse_fixed(b, p, 4)->0, 4));
    } else if tag == TAG_LONG || tag == TAG_TIMESTAMP {
        lemma_fixed_written(b, p, 8);
        crate::wire::lemma_untwos_round_trip(parse_fixed(b, p, 8)->0, 8);
        lemma_tagged(b, pos, tag, be_bytes(parse_fixed(b, p, 8)->0, 8));
    } else if tag == TAG_BINARY {
        let parsed = parse_sized(b, p)->0;
        let payload = parsed.0;
        lemma_sized_written(b, p, payload, end);
        lemma_tagged(b, pos, tag, sized(payload));
    } else if tag == TAG_STRING || tag == TAG_SYMBOL {
        let parsed = parse_sized(b, p)->0;
        let payload = parsed.0;
        lemma_sized_written(b, p, payload, end);
        vstd::utf8::decode_utf8_encode_utf8(payload);
        lemma_tagged(b, pos, tag, sized(payload));
    } else if tag == TAG_LIST {
        lemma_fixed_written(b, p, 8);
        let n = parse_fixed(b, p, 8)->0;
        let parsed = parse_items(b, p + 8, n as nat)->0;
        let items = parsed.0;
        lemma_enc_parse_items(b, p + 8, n as nat, items, end);
        let body = enc_items(items, items.len());
        crate::wire::lemma_holds_at_concat(b, p, be_bytes(n, 8), body);
        lemma_tagged(b, pos, tag, be_bytes(n, 8) + body);
    } else {
        lemma_fixed_written(b, p, 8);
        let n = parse_fixed(b, p, 8)->0;
        let parsed = parse_pairs(b, p + 8, n as nat)->0;
        let pairs = parsed.0;
        lemma_enc_parse_pairs(b, p + 8, n as nat, pairs, end);
        let body = enc_pairs(pairs, pairs.len());
        crate::wire::lemma_holds_at_concat(b, p, be_bytes(n, 8), body);
        lemma_tagged(b, pos, tag, be_bytes(n, 8) + body);
    }
}

/// Whatever is read as `count` items stands there as those items would be
/// written, one after the other.
pub proof fn lemma_enc_parse_items(
    b: Seq<u8>,
    pos: int,
    count: nat,
    items: Seq<ValueModel>,
    end: int,
)
    requires
        parse_items(b, pos, count) == Some((items, end)),
    ensures
        items.len() == count,
        forall|i: int| 0 <= i < items.len() ==> value_wf(#[trigger] items[i]),
        forall|i: int| 0 <= i < items.len() ==> value_fits(#[trigger] items[i]),
        pos + count <= end <= b.len(),
        end == pos + enc_items(items, count).len(),
        holds_at(b, pos, enc_items(items, count)),
    decreases b.len() - pos, count + 1,
{
    if count == 0 {
        assert(b.subrange(pos, pos) =~= Seq::<u8>::empty());
    } else {
        let m = (count - 1) as nat;
        let (head, mid) = parse_items(b, pos, m)->0;
        let (v, _) = parse_value(b, mid)->0;
        lemma_enc_parse_items(b, pos, m, head, mid);
        lemma_enc_parse_value(b, mid, v, end);
        lemma_enc_value_len(v);
        lemma_enc_items_prefix(items, head, m);
        crate::wire::lemma_holds_at_concat(b, pos, enc_items(head, m), enc_value(v));
    }
}

/// Whatever is read as `count` entries stands there as those entries would be
/// written, one after the other.
pub proof fn lemma_enc_parse_pairs(
    b: Seq<u8>,
    pos: int,
    count: nat,
    pairs: Seq<(ValueModel, ValueModel)>,
    end: int,
)
    requires
        parse_pairs(b, pos, count) == Some((pairs, end)),
    ensures
        pairs.len() == count,
        forall|i: int|
            0 <= i < pairs.len() ==> value_wf((#[trigger] pairs[i]).0) && value_wf(pairs[i].1),
        forall|i: int|
            0 <= i < pairs.len() ==> value_fits((#[trigger] pairs[i]).0) && value_fits(
                pairs[i].1,
            ),
        pos + count <= end <= b.len(),
        end == pos + enc_pairs(pairs, count).len(),
        holds_at(b, pos, enc_pairs(pairs, count)),
    decreases b.len() - pos, count + 1,
{
    if count == 0 {
        assert(b.subrange(pos, pos) =~= Seq::<u8>::empty());
    } else {
        let m = (count - 1) as nat;
        let (head, mid) = parse_pairs(b, pos, m)->0;
        let (k, after_key) = parse_value(b, mid)->0;
        let (v, _) = parse_value(b, after_key)->0;
        lemma_enc_parse_pairs(b, pos, m, head, mid);
        lemma_enc_parse_value(b, mid, k, after_key);
        lemma_enc_parse_value(b, after_key, v, end);
        lemma_enc_value_len(v);
        lemma_enc_pairs_prefix(pairs, head, m);
        crate::wire::lemma_holds_at_concat(b, mid, enc_value(k), enc_value(v));
        crate::wire::lemma_holds_at_concat(
            b,
            pos,
            enc_pairs(head, m),
            enc_value(k) + enc_value(v),
        );
    }
}

/// Where fewer items cannot be read, more cannot be read either.
pub proof fn lemma_parse_items_fails_on(b: Seq<u8>, pos: int, k: nat, n: nat)
    requires
        k <= n,
        parse_items(b, pos, k) is None,
    ensures
        parse_items(b, pos, n) is None,
    decreases n,
{
    if k < n {
        lemma_parse_items_fails_on(b, pos, k, (n - 1) as nat);
    }
}

/// Where fewer entries cannot be read, more cannot be read either.
pub proof fn lemma_parse_pairs_fails_on(b: Seq<u8>, pos: int, k: nat, n: nat)
    requires
        k <= n,
        parse_pairs(b, pos, k) is None,
    ensures
        parse_pairs(b, pos, n) is None,
    decreases n,
{
    if k < n {
        lemma_parse_pairs_fails_on(b, pos, k, (n - 1) as nat);
    }
}

/// Encoding a well-formed value and reading the bytes gives the value back,
/// and all of the bytes are used.
pub proof fn lemma_value_round_trip(v: ValueModel)
    requires
        value_wf(v),
        value_fits(v),
    ensures
        parse_value(enc_value(v), 0) == Some((v, enc_value(v).len() as int)),
{
    let b = enc_value(v);
    assert(b.subrange(0, b.len() as int) =~= b);
    lemma_parse_enc_value(v, b, 0);
}

/// Two well-formed values with the same encoding are the same value.
pub proof fn lemma_enc_value_injective(x: ValueModel, y: ValueModel)
    requires
        value_wf(x),
        value_fits(x),
        value_wf(y),
        value_fits(y),
        enc_value(x) == enc_value(y),
    ensures
        x == y,
{
    lemma_value_round_trip(x);
    lemma_value_round_trip(y);
}

/// Appends a tag and a number of `width` bytes.
pub fn push_tagged(out: &mut Vec<u8>, tag: u8, n: u64, width: usize)
    requires
        width <= 8,
    ensures
        final(out)@ == old(out)@ + (seq![tag] + be_bytes(n as int, width as nat)),
{
    out.push(tag);
    push_be(out, n, width);
    assert(out@ =~= old(out)@ + (seq![tag] + be_bytes(n as int, width as nat)));
}

/// Appends a tag and a run of bytes behind its length.
pub fn push_sized(out: &mut Vec<u8>, tag: u8, payload: &[u8])
    ensures
        final(out)@ == old(out)@ + (seq![tag] + sized(payload@)),
        payload@.len() <= u64::MAX,
{
    out.push(tag);
    push_be(out, payload.len() as u64, 8);
    push_all(out, payload);
    assert(out@ =~= old(out)@ + (seq![tag] + sized(payload@)));
}

/// Appends the count of a list and the encodings of its items.
pub fn encode_list(items: &Vec<AmqpValue>, out: &mut Vec<u8>)
    ensures
        final(out)@ == old(out)@ + (be_bytes(items@.len() as int, 8) + enc_items(
            list_view(items@),
            items@.len(),
        )),
        list_fits(list_view(items@)),
    decreases items,
{
    let ghost models = list_view(items@);
    push_be(out, items.len() as u64, 8);
    let ghost head = out@;
    let mut i: usize = 0;
    assert(out@ =~= head + enc_items(models, 0));
    while i < items.len()
        invariant
            i <= items@.len(),
            models == list_view(items@),
            out@ == head + enc_items(models, i as nat),
            forall|j: int| 0 <= j < i ==> value_fits(#[trigger] models[j]),
        decreases items@.len() - i,
    {
        proof {
            vstd::std_specs::vec::axiom_vec_index_decreases(*items, i as int);
        }
        encode_value(&items[i], out);
        assert(out@ =~= head + enc_items(models, (i + 1) as nat));
        i = i + 1;
    }
    assert(out@ =~= old(out)@ + (be_bytes(items@.len() as int, 8) + enc_items(
        models,
        items@.len(),
    )));
}

/// Appends the count of a map and the encodings of its entries.
pub fn encode_dict(m: &AmqpOrderedMap<AmqpValue, AmqpValue>, out: &mut Vec<u8>)
    ensures
        final(out)@ == old(out)@ + (be_bytes(m@.len() as int, 8) + enc_pairs(m@, m@.len())),
        pairs_fits(m@),
    decreases m,
{
    push_be(out, m.len() as u64, 8);
    let ghost head = out@;
    let mut i: usize = 0;
    assert(out@ =~= head + enc_pairs(m@, 0));
    while i < m.len()
        invariant
            i <= m@.len(),
            out@ == head + enc_pairs(m@, i as nat),
            forall|j: int|
                0 <= j < i ==> value_fits((#[trigger] m@[j]).0) && value_fits(m@[j].1),
        decreases m@.len() - i,
    {
        proof {
            m.lemma_pairs_decrease();
            assert(decreases_to!(m.pairs() => m.pairs()[i as int]));
            assert(decreases_to!(m.pairs()[i as int] => m.pairs()[i as int].0));
            assert(decreases_to!(m.pairs()[i as int] => m.pairs()[i as int].1));
        }
        let ghost before = out@;
        encode_value(m.key_at(i), out);
        encode_value(m.value_at(i), out);
        assert(out@ =~= before + (enc_value(m@[i as int].0) + enc_value(m@[i as int].1)));
        assert(out@ =~= head + enc_pairs(m@, (i + 1) as nat));
        i = i + 1;
    }
    assert(out@ =~= old(out)@ + (be_bytes(m@.len() as int, 8) + enc_pairs(m@, m@.len())));
}

/// Appends the encoding of a value. Every value in memory fits its encoding,
/// which the walk over the value shows.
pub fn encode_value(v: &AmqpValue, out: &mut Vec<u8>)
    ensures
        final(out)@ == old(out)@ + enc_value(v@),
        value_fits(v@),
    decreases v,
{
    proof {
        lemma_pow256_values();
    }
    match v {
        AmqpValue::Null => {
            out.push(TAG_NULL);
            assert(out@ =~= old(out)@ + enc_value(v@));
        },
        AmqpValue::Boolean(x) => {
            out.push(
                if *x {
                    TAG_TRUE
                } else {
                    TAG_FALSE
                },
            );
            assert(out@ =~= old(out)@ + enc_value(v@));
        },
        AmqpValue::UByte(n) => push_tagged(out, TAG_UBYTE, *n as u64, 1),
        AmqpValue::UShort(n) => push_tagged(out, TAG_USHORT, *n as u64, 2),
        AmqpValue::UInt(n) => push_tagged(out, TAG_UINT, *n as u64, 4),
        AmqpValue::ULong(n) => push_tagged(out, TAG_ULONG, *n, 8),
        AmqpValue::Byte(n) => push_tagged(out, TAG_BYTE, signed_bits(*n as i64, 1), 1),
        AmqpValue::Short(n) => push_tagged(out, TAG_SHORT, signed_bits(*n as i64, 2), 2),
        AmqpValue::Int(n) => push_tagged(out, TAG_INT, signed_bits(*n as i64, 4), 4),
        AmqpValue::Long(n) => push_tagged(out, TAG_LONG, signed_bits(*n, 8), 8),
        AmqpValue::TimeStamp(n) => push_tagged(out, TAG_TIMESTAMP, signed_bits(*n, 8), 8),
        AmqpValue::Binary(x) => push_sized(out, TAG_BINARY, x.as_slice()),
        AmqpValue::String(x) => push_sized(out, TAG_STRING, x.as_str().as_bytes()),
        AmqpValue::Symbol(x) => push_sized(out, TAG_SYMBOL, x.as_str().as_bytes()),
        AmqpValue::List(x) => {
            proof {
                assert(v->List_0 == *x);
                lemma_list_value_view(*x);
            }
            out.push(TAG_LIST);
            encode_list(x, out);
            assert(out@ =~= old(out)@ + enc_value(v@));
        },
        AmqpValue::Dict(x) => {
            proof {
                assert(v->Dict_0 == *x);
                lemma_dict_value_view(*x);
            }
            out.push(TAG_MAP);
            encode_dict(x, out);
            assert(out@ =~= old(out)@ + enc_value(v@));
        },
    }
}

/// Reads the number that the `width` bytes from `pos` on hold.
pub fn read_fixed(bytes: &[u8], pos: usize, width: usize) -> (r: Option<u64>)
    requires
        width <= 8,
    ensures
        match r {
            Some(n) => parse_fixed(bytes@, pos as int, width as nat) == Some(n as int) && pos
                + width <= bytes@.len() <= usize::MAX && n < pow256(width as nat),
            None => parse_fixed(bytes@, pos as int, width as nat) is None,
        },
{
    if pos > bytes.len() || bytes.len() - pos < width {
        return None;
    }
    proof {
        crate::wire::lemma_be_value_bound(bytes@.subrange(pos as int, pos + width));
    }
    Some(read_be(bytes, pos, width))
}

/// Reads the run of bytes that stands at `pos` behind its length.
pub fn read_sized(bytes: &[u8], pos: usize) -> (r: Option<(Vec<u8>, usize)>)
    ensures
        match r {
            Some((payload, end)) => parse_sized(bytes@, pos as int) == Some(
                (payload@, end as int),
            ) && pos + 8 <= end <= bytes@.len(),
            None => parse_sized(bytes@, pos as int) is None,
        },
{
    match read_fixed(bytes, pos, 8) {
        Some(n) => {
            let room = bytes.len() - pos - 8;
            if n > room as u64 {
                return None;
            }
            let start = pos + 8;
            let end = start + n as usize;
            Some((copy_range(bytes, start, end), end))
        },
        None => None,
    }
}

/// Reads the text that stands at `pos` behind its length.
pub fn read_text(bytes: &[u8], pos: usize) -> (r: Option<(String, usize)>)
    ensures
        match r {
            Some((text, end)) => parse_text(bytes@, pos as int) == Some((text@, end as int))
                && pos + 8 <= end <= bytes@.len(),
            None => parse_text(bytes@, pos as int) is None,
        },
{
    match read_sized(bytes, pos) {
        Some((payload, end)) => match decode_text(payload) {
            Some(text) => Some((text, end)),
            None => None,
        },
        None => None,
    }
}

/// Reads a count and that many values.
pub fn decode_list(bytes: &[u8], pos: usize) -> (r: Option<(Vec<AmqpValue>, usize)>)
    requires
        pos <= bytes@.len(),
    ensures
        match r {
            Some((items, end)) => parse_fixed(bytes@, pos as int, 8) is Some && parse_items(
                bytes@,
                pos + 8,
                parse_fixed(bytes@, pos as int, 8)->0 as nat,
            ) == Some((list_view(items@), end as int)) && pos + 8 <= end <= bytes@.len(),
            None => parse_fixed(bytes@, pos as int, 8) is None || parse_items(
                bytes@,
                pos + 8,
                parse_fixed(bytes@, pos as int, 8)->0 as nat,
            ) is None,
        },
    decreases bytes@.len() - pos, 0nat,
{
    let count = match read_fixed(bytes, pos, 8) {
        Some(n) => n,
        None => {
            return None;
        },
    };
    let start = pos + 8;
    let mut items: Vec<AmqpValue> = Vec::new();
    let mut cur: usize = start;
    let mut i: u64 = 0;
    assert(list_view(items@) =~= Seq::<ValueModel>::empty());
    while i < count
        invariant
            i <= count,
            start == pos + 8,
            start <= cur <= bytes@.len(),
            parse_fixed(bytes@, pos as int, 8) == Some(count as int),
            parse_items(bytes@, start as int, i as nat) == Some((list_view(items@), cur as int)),
        decreases count - i,
    {
        match decode_value(bytes, cur) {
            Some((v, next)) => {
                let ghost before = list_view(items@);
                items.push(v);
                assert(list_view(items@) =~= before.push(v@));
                cur = next;
                i = i + 1;
            },
            None => {
                proof {
                    lemma_parse_items_fails_on(bytes@, start as int, (i + 1) as nat, count as nat);
                }
                return None;
            },
        }
    }
    Some((items, cur))
}

/// Reads a count and that many entries.
pub fn decode_pairs(bytes: &[u8], pos: usize) -> (r: Option<
    (Vec<(AmqpValue, AmqpValue)>, usize),
>)
    requires
        pos <= bytes@.len(),
    ensures
        match r {
            Some((pairs, end)) => parse_fixed(bytes@, pos as int, 8) is Some && parse_pairs(
                bytes@,
                pos + 8,
                parse_fixed(bytes@, pos as int, 8)->0 as nat,
            ) == Some((pairs_view(pairs@), end as int)) && pos + 8 <= end <= bytes@.len(),
            None => parse_fixed(bytes@, pos as int, 8) is None || parse_pairs(
                bytes@,
                pos + 8,
                parse_fixed(bytes@, pos as int, 8)->0 as nat,
            ) is None,
        },
    decreases bytes@.len() - pos, 0nat,
{
    let count = match read_fixed(bytes, pos, 8) {
        Some(n) => n,
        None => {
            return None;
        },
    };
    let start = pos + 8;
    let mut pairs: Vec<(AmqpValue, AmqpValue)> = Vec::new();
    let mut cur: usize = start;
    let mut i: u64 = 0;
    assert(pairs_view(pairs@) =~= Seq::<(ValueModel, ValueModel)>::empty());
    while i < count
        invariant
            i <= count,
            start == pos + 8,
            start <= cur <= bytes@.len(),
            parse_fixed(bytes@, pos as int, 8) == Some(count as int),
            parse_pairs(bytes@, start as int, i as nat) == Some((pairs_view(pairs@), cur as int)),
        decreases count - i,
    {
        let (k, after_key) = match decode_value(bytes, cur) {
            Some(found) => found,
            None => {
                proof {
                    lemma_parse_pairs_fails_on(bytes@, start as int, (i + 1) as nat, count as nat);
                }
                return None;
            },
        };
        let (v, next) = match decode_value(bytes, after_key) {
            Some(found) => found,
            None => {
                proof {
                    lemma_parse_pairs_fails_on(bytes@, start as int, (i + 1) as nat, count as nat);
                }
                return None;
            },
        };
        let ghost before = pairs_view(pairs@);
        pairs.push((k, v));
        assert(pairs_view(pairs@) =~= before.push((k@, v@)));
        cur = next;
        i = i + 1;
    }
    Some((pairs, cur))
}

/// Reads the value whose encoding starts at `pos`, and says where it ends.
/// `None` where no encoding of a value starts there.
pub fn decode_value(bytes: &[u8], pos: usize) -> (r: Option<(AmqpValue, usize)>)
    ensures
        match r {
            Some((v, end)) => parse_value(bytes@, pos as int) == Some((v@, end as int)) && pos
                < end <= bytes@.len(),
            None => parse_value(bytes@, pos as int) is None,
        },
    decreases bytes@.len() - pos, 1nat,
{
    if pos >= bytes.len() {
        return None;
    }
    proof {
        lemma_pow256_values();
    }
    let tag = bytes[pos];
    let p = pos + 1;
    if tag == TAG_NULL {
        Some((AmqpValue::Null, p))
    } else if tag == TAG_TRUE {
        Some((AmqpValue::Boolean(true), p))
    } else if tag == TAG_FALSE {
        Some((AmqpValue::Boolean(false), p))
    } else if tag == TAG_UBYTE {
        match read_fixed(bytes, p, 1) {
            Some(n) => Some((AmqpValue::UByte(n as u8), p + 1)),
            None => None,
        }
    } else if tag == TAG_USHORT {
        match read_fixed(bytes, p, 2) {
            Some(n) => Some((AmqpValue::UShort(n as u16), p + 2)),
            None => None,
        }
    } else if tag == TAG_UINT {
        match read_fixed(bytes, p, 4) {
            Some(n) => Some((AmqpValue::UInt(n as u32), p + 4)),
            None => None,
        }
    } else if tag == TAG_ULONG {
        match read_fixed(bytes, p, 8) {
            Some(n) => Some((AmqpValue::ULong(n), p + 8)),
            None => None,
        }
    } else if tag == TAG_BYTE {
        match read_fixed(bytes, p, 1) {
            Some(n) => Some((AmqpValue::Byte(signed_from_bits(n, 1) as i8), p + 1)),
            None => None,
        }
    } else if tag == TAG_SHORT {
        match read_fixed(bytes, p, 2) {
            Some(n) => Some((AmqpValue::Short(signed_from_bits(n, 2) as i16), p + 2)),
            None => None,
        }
    } else if tag == TAG_INT {
        match read_fixed(bytes, p, 4) {
            Some(n) => Some((AmqpValue::Int(signed_from_bits(n, 4) as i32), p + 4)),
            None => None,
        }
    } else if tag == TAG_LONG {
        match read_fixed(bytes, p, 8) {
            Some(n) => Some((AmqpValue::Long(signed_from_bits(n, 8)), p + 8)),
            None => None,
        }
    } else if tag == TAG_TIMESTAMP {
        match read_fixed(bytes, p, 8) {
            Some(n) => Some((AmqpValue::TimeStamp(signed_from_bits(n, 8)), p + 8)),
            None => None,
        }
    } else if tag == TAG_BINARY {
        match read_sized(bytes, p) {
            Some((payload, end)) => Some((AmqpValue::Binary(payload), end)),
            None => None,
        }
    } else if tag == TAG_STRING {
        match read_text(bytes, p) {
            Some((text, end)) => Some((AmqpValue::String(text), end)),
            None => None,
        }
    } else if tag == TAG_SYMBOL {
        match read_text(bytes, p) {
            Some((text, end)) => Some((AmqpValue::Symbol(text), end)),
            None => None,
        }
    } else if tag == TAG_LIST {
        match decode_list(bytes, p) {
            Some((items, end)) => {
                proof {
                    lemma_list_value_view(items);
                }
                Some((AmqpValue::List(items), end))
            },
            None => None,
        }
    } else if tag == TAG_MAP {
        match decode_pairs(bytes, p) {
            Some((pairs, end)) => match AmqpOrderedMap::from_distinct_pairs(pairs) {
                Some(m) => {
                    proof {
                        lemma_dict_value_view(m);
                    }
                    Some((AmqpValue::Dict(m), end))
                },
                None => None,
            },
            None => None,
        }
    } else {
        None
    }
}

} // verus!
