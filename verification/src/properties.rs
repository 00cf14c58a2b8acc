//! The properties section: the standard metadata of a message.

use crate::value::clone_bytes;
use crate::value::lemma_list_value_view;
use crate::value::list_view;
use crate::value::value_wf;
use crate::value::AmqpSymbol;
use crate::value::AmqpValue;
use crate::value::ValueModel;
use vstd::prelude::*;

verus! {

/// What a message identifier is.
pub enum MessageIdModel {
    Ulong(u64),
    Binary(Seq<u8>),
    String(Seq<char>),
}

/// An identifier of a message: a number, a run of bytes or a text.
#[derive(Debug, PartialEq, Eq)]
pub enum AmqpMessageId {
    Ulong(u64),
    Binary(Vec<u8>),
    String(String),
}

impl View for AmqpMessageId {
    type V = MessageIdModel;

    open spec fn view(&self) -> MessageIdModel {
        match self {
            AmqpMessageId::Ulong(n) => MessageIdModel::Ulong(*n),
            AmqpMessageId::Binary(b) => MessageIdModel::Binary(b@),
            AmqpMessageId::String(s) => MessageIdModel::String(s@),
        }
    }
}

impl Clone for AmqpMessageId {
    fn clone(&self) -> (r: Self)
        ensures
            r@ == self@,
    {
        match self {
            AmqpMessageId::Ulong(n) => AmqpMessageId::Ulong(*n),
            AmqpMessageId::Binary(b) => AmqpMessageId::Binary(clone_bytes(b)),
            AmqpMessageId::String(s) => AmqpMessageId::String(s.clone()),
        }
    }
}

/// The model of an identifier that may be absent.
pub open spec fn id_view(o: Option<AmqpMessageId>) -> Option<MessageIdModel> {
    match o {
        Some(x) => Some(x@),
        None => None,
    }
}

/// The model of a run of bytes that may be absent.
pub open spec fn bin_view(o: Option<Vec<u8>>) -> Option<Seq<u8>> {
    match o {
        Some(x) => Some(x@),
        None => None,
    }
}

/// The model of a text that may be absent.
pub open spec fn text_view(o: Option<String>) -> Option<Seq<char>> {
    match o {
        Some(x) => Some(x@),
        None => None,
    }
}

/// The value of an identifier field; null where the field is absent.
pub open spec fn id_value(o: Option<MessageIdModel>) -> ValueModel {
    match o {
        Some(MessageIdModel::Ulong(n)) => ValueModel::ULong(n),
        Some(MessageIdModel::Binary(b)) => ValueModel::Binary(b),
        Some(MessageIdModel::String(s)) => ValueModel::String(s),
        None => ValueModel::Null,
    }
}

/// The identifier field that a value stands for.
pub open spec fn value_id(v: ValueModel) -> Option<Option<MessageIdModel>> {
    match v {
        ValueModel::ULong(n) => Some(Some(MessageIdModel::Ulong(n))),
        ValueModel::Binary(b) => Some(Some(MessageIdModel::Binary(b))),
        ValueModel::String(s) => Some(Some(MessageIdModel::String(s))),
        ValueModel::Null => Some(None),
        _ => None,
    }
}

/// The value of a bytes field; null where the field is absent.
pub open spec fn bin_value(o: Option<Seq<u8>>) -> ValueModel {
    match o {
        Some(b) => ValueModel::Binary(b),
        None => ValueModel::Null,
    }
}

/// The bytes field that a value stands for.
pub open spec fn value_bin(v: ValueModel) -> Option<Option<Seq<u8>>> {
    match v {
        ValueModel::Binary(b) => Some(Some(b)),
        ValueModel::Null => Some(None),
        _ => None,
    }
}

/// The value of a text field; null where the field is absent.
pub open spec fn text_value(o: Option<Seq<char>>) -> ValueModel {
    match o {
        Some(s) => ValueModel::String(s),
        None => ValueModel::Null,
    }
}

/// The text field that a value stands for.
pub open spec fn value_text(v: ValueModel) -> Option<Option<Seq<char>>> {
    match v {
        ValueModel::String(s) => Some(Some(s)),
        ValueModel::Null => Some(None),
        _ => None,
    }
}

/// The value of a symbol field; null where the field is absent.
pub open spec fn symbol_value(o: Option<Seq<char>>) -> ValueModel {
    match o {
        Some(s) => ValueModel::Symbol(s),
        None => ValueModel::Null,
    }
}

/// The symbol field that a value stands for.
pub open spec fn value_symbol(v: ValueModel) -> Option<Option<Seq<char>>> {
    match v {
        ValueModel::Symbol(s) => Some(Some(s)),
        ValueModel::Null => Some(None),
        _ => None,
    }
}

/// The value of a time field; null where the field is absent.
pub open spec fn time_value(o: Option<i64>) -> ValueModel {
    match o {
        Some(t) => ValueModel::TimeStamp(t),
        None => ValueModel::Null,
    }
}

/// The time field that a value stands for.
pub open spec fn value_time(v: ValueModel) -> Option<Option<i64>> {
    match v {
        ValueModel::TimeStamp(t) => Some(Some(t)),
        ValueModel::Null => Some(None),
        _ => None,
    }
}

/// The value of a number field; null where the field is absent.
pub open spec fn uint_value(o: Option<u32>) -> ValueModel {
    match o {
        Some(n) => ValueModel::UInt(n),
        None => ValueModel::Null,
    }
}

/// The number field that a value stands for.
pub open spec fn value_uint(v: ValueModel) -> Option<Option<u32>> {
    match v {
        ValueModel::UInt(n) => Some(Some(n)),
        ValueModel::Null => Some(None),
        _ => None,
    }
}

/// The value of an identifier field.
pub fn id_to_value(o: &Option<AmqpMessageId>) -> (v: AmqpValue)
    ensures
        v@ == id_value(id_view(*o)),
{
    match o {
        Some(AmqpMessageId::Ulong(n)) => AmqpValue::ULong(*n),
        Some(AmqpMessageId::Binary(b)) => AmqpValue::Binary(clone_bytes(b)),
        Some(AmqpMessageId::String(s)) => AmqpValue::String(s.clone()),
        None => AmqpValue::Null,
    }
}

/// The identifier field that a value stands for, where it stands for one.
pub fn id_from_value(v: &AmqpValue) -> (r: Option<Option<AmqpMessageId>>)
    ensures
        match r {
            Some(o) => value_id(v@) == Some(id_view(o)),
            None => value_id(v@) is None,
        },
{
    match v {
        AmqpValue::ULong(n) => Some(Some(AmqpMessageId::Ulong(*n))),
        AmqpValue::Binary(b) => Some(Some(AmqpMessageId::Binary(clone_bytes(b)))),
        AmqpValue::String(s) => Some(Some(AmqpMessageId::String(s.clone()))),
        AmqpValue::Null => Some(None),
        _ => None,
    }
}

/// The value of a bytes field.
pub fn bin_to_value(o: &Option<Vec<u8>>) -> (v: AmqpValue)
    ensures
        v@ == bin_value(bin_view(*o)),
{
    match o {
        Some(b) => AmqpValue::Binary(clone_bytes(b)),
        None => AmqpValue::Null,
    }
}

/// The bytes field that a value stands for, where it stands for one.
pub fn bin_from_value(v: &AmqpValue) -> (r: Option<Option<Vec<u8>>>)
    ensures
        match r {
            Some(o) => value_bin(v@) == Some(bin_view(o)),
            None => value_bin(v@) is None,
        },
{
    match v {
        AmqpValue::Binary(b) => Some(Some(clone_bytes(b))),
        AmqpValue::Null => Some(None),
        _ => None,
    }
}

/// The value of a text field.
pub fn text_to_value(o: &Option<String>) -> (v: AmqpValue)
    ensures
        v@ == text_value(text_view(*o)),
{
    match o {
        Some(s) => AmqpValue::String(s.clone()),
        None => AmqpValue::Null,
    }
}

/// The text field that a value stands for, where it stands for one.
pub fn text_from_value(v: &AmqpValue) -> (r: Option<Option<String>>)
    ensures
        match r {
            Some(o) => value_text(v@) == Some(text_view(o)),
            None => value_text(v@) is None,
        },
{
    match v {
        AmqpValue::String(s) => Some(Some(s.clone())),
        AmqpValue::Null => Some(None),
        _ => None,
    }
}

/// The value of a symbol field.
pub fn symbol_to_value(o: &Option<AmqpSymbol>) -> (v: AmqpValue)
    ensures
        v@ == symbol_value(text_view(*o)),
{
    match o {
        Some(s) => AmqpValue::Symbol(s.clone()),
        None => AmqpValue::Null,
    }
}

/// The symbol field that a value stands for, where it stands for one.
pub fn symbol_from_value(v: &AmqpValue) -> (r: Option<Option<AmqpSymbol>>)
    ensures
        match r {
            Some(o) => value_symbol(v@) == Some(text_view(o)),
            None => value_symbol(v@) is None,
        },
{
    match v {
        AmqpValue::Symbol(s) => Some(Some(s.clone())),
        AmqpValue::Null => Some(None),
        _ => None,
    }
}

/// The value of a time field.
pub fn time_to_value(o: &Option<i64>) -> (v: AmqpValue)
    ensures
        v@ == time_value(*o),
{
    match o {
        Some(t) => AmqpValue::TimeStamp(*t),
        None => AmqpValue::Null,
    }
}

/// The time field that a value stands for, where it stands for one.
pub fn time_from_value(v: &AmqpValue) -> (r: Option<Option<i64>>)
    ensures
        r == value_time(v@),
{
    match v {
        AmqpValue::TimeStamp(t) => Some(Some(*t)),
        AmqpValue::Null => Some(None),
        _ => None,
    }
}

/// The value of a number field.
pub fn uint_to_value(o: &Option<u32>) -> (v: AmqpValue)
    ensures
        v@ == uint_value(*o),
{
    match o {
        Some(n) => AmqpValue::UInt(*n),
        None => AmqpValue::Null,
    }
}

/// The number field that a value stands for, where it stands for one.
pub fn uint_from_value(v: &AmqpValue) -> (r: Option<Option<u32>>)
    ensures
        r == value_uint(v@),
{
    match v {
        AmqpValue::UInt(n) => Some(Some(*n)),
        AmqpValue::Null => Some(None),
        _ => None,
    }
}

/// The text, or a copy of it.
pub fn clone_text(o: &Option<String>) -> (r: Option<String>)
    ensures
        text_view(r) == text_view(*o),
{
    match o {
        Some(s) => Some(s.clone()),
        None => None,
    }
}

/// What the properties of a message are.
pub struct PropertiesModel {
    pub message_id: Option<MessageIdModel>,
    pub user_id: Option<Seq<u8>>,
    pub to: Option<Seq<char>>,
    pub subject: Option<Seq<char>>,
    pub reply_to: Option<Seq<char>>,
    pub correlation_id: Option<MessageIdModel>,
    pub content_type: Option<Seq<char>>,
    pub content_encoding: Option<Seq<char>>,
    pub absolute_expiry_time: Option<i64>,
    pub creation_time: Option<i64>,
    pub group_id: Option<Seq<char>>,
    pub group_sequence: Option<u32>,
    pub reply_to_group_id: Option<Seq<char>>,
}

/// Standard metadata of a message. Every field may be absent.
#[derive(Debug, PartialEq, Eq)]
pub struct AmqpMessageProperties {
    /// What identifies the message.
    pub message_id: Option<AmqpMessageId>,
    /// The identity of the user who made the message.
    pub user_id: Option<Vec<u8>>,
    /// The address of the node the message is meant for.
    pub to: Option<String>,
    /// What the message is about.
    pub subject: Option<String>,
    /// The address of the node to send replies to.
    pub reply_to: Option<String>,
    /// What identifies the message that this one answers.
    pub correlation_id: Option<AmqpMessageId>,
    /// The media type of the body.
    pub content_type: Option<AmqpSymbol>,
    /// The encoding applied to the body.
    pub content_encoding: Option<AmqpSymbol>,
    /// When the message expires, in milliseconds since the Unix epoch.
    pub absolute_expiry_time: Option<i64>,
    /// When the message was made, in milliseconds since the Unix epoch.
    pub creation_time: Option<i64>,
    /// The group the message belongs to.
    pub group_id: Option<String>,
    /// The place of the message in its group.
    pub group_sequence: Option<u32>,
    /// The group to which replies belong.
    pub reply_to_group_id: Option<String>,
}

impl View for AmqpMessageProperties {
    type V = PropertiesModel;

    open spec fn view(&self) -> PropertiesModel {
        PropertiesModel {
            message_id: id_view(self.message_id),
            user_id: bin_view(self.user_id),
            to: text_view(self.to),
            subject: text_view(self.subject),
            reply_to: text_view(self.reply_to),
            correlation_id: id_view(self.correlation_id),
            content_type: text_view(self.content_type),
            content_encoding: text_view(self.content_encoding),
            absolute_expiry_time: self.absolute_expiry_time,
            creation_time: self.creation_time,
            group_id: text_view(self.group_id),
            group_sequence: self.group_sequence,
            reply_to_group_id: text_view(self.reply_to_group_id),
        }
    }
}

/// The number of fields of the properties section.
pub const PROPERTIES_FIELDS: usize = 13;

/// The list value that stands for the properties: the fields in order, an
/// absent field as null.
pub open spec fn properties_value(p: PropertiesModel) -> ValueModel {
    ValueModel::List(
        seq![
            id_value(p.message_id),
            bin_value(p.user_id),
            text_value(p.to),
            text_value(p.subject),
            text_value(p.reply_to),
            id_value(p.correlation_id),
            symbol_value(p.content_type),
            symbol_value(p.content_encoding),
            time_value(p.absolute_expiry_time),
            time_value(p.creation_time),
            text_value(p.group_id),
            uint_value(p.group_sequence),
            text_value(p.reply_to_group_id),
        ],
    )
}

/// The properties that a value stands for: the value is a list of exactly
/// the fields, each of its kind or null.
pub open spec fn value_properties(v: ValueModel) -> Option<PropertiesModel> {
    match v {
        ValueModel::List(items) => if items.len() == PROPERTIES_FIELDS
            && value_id(items[0]) is Some
            && value_bin(items[1]) is Some
            && value_text(items[2]) is Some
            && value_text(items[3]) is Some
            && value_text(items[4]) is Some
            && value_id(items[5]) is Some
            && value_symbol(items[6]) is Some
            && value_symbol(items[7]) is Some
            && value_time(items[8]) is Some
            && value_time(items[9]) is Some
            && value_text(items[10]) is Some
            && value_uint(items[11]) is Some
            && value_text(items[12]) is Some
        {
            Some(
                PropertiesModel {
                    message_id: value_id(items[0])->0,
                    user_id: value_bin(items[1])->0,
                    to: value_text(items[2])->0,
                    subject: value_text(items[3])->0,
                    reply_to: value_text(items[4])->0,
                    correlation_id: value_id(items[5])->0,
                    content_type: value_symbol(items[6])->0,
                    content_encoding: value_symbol(items[7])->0,
                    absolute_expiry_time: value_time(items[8])->0,
                    creation_time: value_time(items[9])->0,
                    group_id: value_text(items[10])->0,
                    group_sequence: value_uint(items[11])->0,
                    reply_to_group_id: value_text(items[12])->0,
                },
            )
        } else {
            None
        },
        _ => None,
    }
}

/// The list that stands for the properties has the fields in order.
pub proof fn lemma_properties_items(p: PropertiesModel)
    ensures
        properties_value(p) is List,
        properties_value(p)->List_0.len() == 13,
        properties_value(p)->List_0[0] == id_value(p.message_id),
        properties_value(p)->List_0[1] == bin_value(p.user_id),
        properties_value(p)->List_0[2] == text_value(p.to),
        properties_value(p)->List_0[3] == text_value(p.subject),
        properties_value(p)->List_0[4] == text_value(p.reply_to),
        properties_value(p)->List_0[5] == id_value(p.correlation_id),
        properties_value(p)->List_0[6] == symbol_value(p.content_type),
        properties_value(p)->List_0[7] == symbol_value(p.content_encoding),
        properties_value(p)->List_0[8] == time_value(p.absolute_expiry_time),
        properties_value(p)->List_0[9] == time_value(p.creation_time),
        properties_value(p)->List_0[10] == text_value(p.group_id),
        properties_value(p)->List_0[11] == uint_value(p.group_sequence),
        properties_value(p)->List_0[12] == text_value(p.reply_to_group_id),
{
}

/// The value of a field is neither a list nor a map.
pub open spec fn is_field_value(v: ValueModel) -> bool {
    !(v is List) && !(v is Dict)
}

/// The value of the properties stands for them.
pub proof fn lemma_properties_of_value(p: PropertiesModel)
    ensures
        value_properties(properties_value(p)) == Some(p),
{
    lemma_properties_items(p);
    let items = properties_value(p)->List_0;
    let q = PropertiesModel {
        message_id: value_id(items[0])->0,
        user_id: value_bin(items[1])->0,
        to: value_text(items[2])->0,
        subject: value_text(items[3])->0,
        reply_to: value_text(items[4])->0,
        correlation_id: value_id(items[5])->0,
        content_type: value_symbol(items[6])->0,
        content_encoding: value_symbol(items[7])->0,
        absolute_expiry_time: value_time(items[8])->0,
        creation_time: value_time(items[9])->0,
        group_id: value_text(items[10])->0,
        group_sequence: value_uint(items[11])->0,
        reply_to_group_id: value_text(items[12])->0,
    };
    assert(value_id(items[0]) == Some(p.message_id));
    assert(value_bin(items[1]) == Some(p.user_id));
    assert(value_text(items[2]) == Some(p.to));
    assert(value_text(items[3]) == Some(p.subject));
    assert(value_text(items[4]) == Some(p.reply_to));
    assert(value_id(items[5]) == Some(p.correlation_id));
    assert(value_symbol(items[6]) == Some(p.content_type));
    assert(value_symbol(items[7]) == Some(p.content_encoding));
    assert(value_time(items[8]) == Some(p.absolute_expiry_time));
    assert(value_time(items[9]) == Some(p.creation_time));
    assert(value_text(items[10]) == Some(p.group_id));
    assert(value_uint(items[11]) == Some(p.group_sequence));
    assert(value_text(items[12]) == Some(p.reply_to_group_id));
    assert(q == p);
}

/// The value of the properties is well formed.
pub proof fn lemma_properties_value_wf(p: PropertiesModel)
    ensures
        value_wf(properties_value(p)),
{
    lemma_properties_items(p);
    let items = properties_value(p)->List_0;
    assert(is_field_value(items[0]));
    assert(is_field_value(items[1]));
    assert(is_field_value(items[2]));
    assert(is_field_value(items[3]));
    assert(is_field_value(items[4]));
    assert(is_field_value(items[5]));
    assert(is_field_value(items[6]));
    assert(is_field_value(items[7]));
    assert(is_field_value(items[8]));
    assert(is_field_value(items[9]));
    assert(is_field_value(items[10]));
    assert(is_field_value(items[11]));
    assert(is_field_value(items[12]));
    assert forall|i: int| 0 <= i < items.len() implies value_wf(#[trigger] items[i]) by {
        assert(is_field_value(items[i])) by {
            if i == 0 {
            } else if i == 1 {
            } else if i == 2 {
            } else if i == 3 {
            } else if i == 4 {
            } else if i == 5 {
            } else if i == 6 {
            } else if i == 7 {
            } else if i == 8 {
            } else if i == 9 {
            } else if i == 10 {
            } else if i == 11 {
            } else {
            }
        }
    }
    assert(crate::value::list_wf(items));
}

/// A value that stands for properties is the value of those properties.
pub proof fn lemma_value_of_properties(v: ValueModel)
    requires
        value_properties(v) is Some,
    ensures
        properties_value(value_properties(v)->0) == v,
{
    let items = v->List_0;
    let p = value_properties(v)->0;
    let back = properties_value(p)->List_0;
    assert(back.len() == 13);
    assert(back[0] == items[0]);
    assert(back[1] == items[1]);
    assert(back[2] == items[2]);
    assert(back[3] == items[3]);
    assert(back[4] == items[4]);
    assert(back[5] == items[5]);
    assert(back[6] == items[6]);
    assert(back[7] == items[7]);
    assert(back[8] == items[8]);
    assert(back[9] == items[9]);
    assert(back[10] == items[10]);
    assert(back[11] == items[11]);
    assert(back[12] == items[12]);
    assert(back =~= items);
}

/// The properties in which every field is absent.
pub open spec fn empty_properties() -> PropertiesModel {
    PropertiesModel {
        message_id: None,
        user_id: None,
        to: None,
        subject: None,
        reply_to: None,
        correlation_id: None,
        content_type: None,
        content_encoding: None,
        absolute_expiry_time: None,
        creation_time: None,
        group_id: None,
        group_sequence: None,
        reply_to_group_id: None,
    }
}

impl AmqpMessageProperties {
    /// Properties with every field absent.
    pub fn new() -> (p: Self)
        ensures
            p@ == empty_properties(),
    {
        AmqpMessageProperties {
            message_id: None,
            user_id: None,
            to: None,
            subject: None,
            reply_to: None,
            correlation_id: None,
            content_type: None,
            content_encoding: None,
            absolute_expiry_time: None,
            creation_time: None,
            group_id: None,
            group_sequence: None,
            reply_to_group_id: None,
        }
    }

    /// The list value that stands for the properties.
    pub fn to_value(&self) -> (v: AmqpValue)
        ensures
            v@ == properties_value(self@),
    {
        let mut items: Vec<AmqpValue> = Vec::new();
        items.push(id_to_value(&self.message_id));
        items.push(bin_to_value(&self.user_id));
        items.push(text_to_value(&self.to));
        items.push(text_to_value(&self.subject));
        items.push(text_to_value(&self.reply_to));
        items.push(id_to_value(&self.correlation_id));
        items.push(symbol_to_value(&self.content_type));
        items.push(symbol_to_value(&self.content_encoding));
        items.push(time_to_value(&self.absolute_expiry_time));
        items.push(time_to_value(&self.creation_time));
        items.push(text_to_value(&self.group_id));
        items.push(uint_to_value(&self.group_sequence));
        items.push(text_to_value(&self.reply_to_group_id));
        proof {
            lemma_list_value_view(items);
            assert(list_view(items@) =~= properties_value(self@)->List_0);
        }
        AmqpValue::List(items)
    }

    /// The properties that a value stands for, where it stands for some.
    pub fn from_value(v: &AmqpValue) -> (r: Option<Self>)
        ensures
            match r {
                Some(p) => value_properties(v@) == Some(p@),
                None => value_properties(v@) is None,
            },
    {
        match v {
            AmqpValue::List(items) => {
                proof {
                    lemma_list_value_view(*items);
                }
                if items.len() != PROPERTIES_FIELDS {
                    return None;
                }
                assert(forall|i: int| 0 <= i < 13 ==> list_view(items@)[i] == items@[i]@);
                let message_id = match id_from_value(&items[0]) {
                    Some(x) => x,
                    None => {
                        return None;
                    },
                };
                let user_id = match bin_from_value(&items[1]) {
                    Some(x) => x,
                    None => {
                        return None;
                    },
                };
                let to = match text_from_value(&items[2]) {
                    Some(x) => x,
                    None => {
                        return None;
                    },
                };
                let subject = match text_from_value(&items[3]) {
                    Some(x) => x,
                    None => {
                        return None;
                    },
                };
                let reply_to = match text_from_value(&items[4]) {
                    Some(x) => x,
                    None => {
                        return None;
                    },
                };
                let correlation_id = match id_from_value(&items[5]) {
                    Some(x) => x,
                    None => {
                        return None;
                    },
                };
                let content_type = match symbol_from_value(&items[6]) {
                    Some(x) => x,
                    None => {
                        return None;
                    },
                };
                let content_encoding = match symbol_from_value(&items[7]) {
                    Some(x) => x,
                    None => {
                        return None;
                    },
                };
                let absolute_expiry_time = match time_from_value(&items[8]) {
                    Some(x) => x,
                    None => {
                        return None;
                    },
                };
                let creation_time = match time_from_value(&items[9]) {
                    Some(x) => x,
                    None => {
                        return None;
                    },
                };
                let group_id = match text_from_value(&items[10]) {
                    Some(x) => x,
                    None => {
                        return None;
                    },
                };
                let group_sequence = match uint_from_value(&items[11]) {
                    Some(x) => x,
                    None => {
                        return None;
                    },
                };
                let reply_to_group_id = match text_from_value(&items[12]) {
                    Some(x) => x,
                    None => {
                        return None;
                    },
                };
                Some(
                    AmqpMessageProperties {
                        message_id,
                        user_id,
                        to,
                        subject,
                        reply_to,
                        correlation_id,
                        content_type,
                        content_encoding,
                        absolute_expiry_time,
                        creation_time,
                        group_id,
                        group_sequence,
                        reply_to_group_id,
                    },
                )
            },
            _ => None,
        }
    }
}

impl Default for AmqpMessageProperties {
    fn default() -> (p: Self)
        ensures
            p@ == empty_properties(),
    {
        AmqpMessageProperties::new()
    }
}

impl Clone for AmqpMessageProperties {
    fn clone(&self) -> (r: Self)
        ensures
            r@ == self@,
    {
        AmqpMessageProperties {
            message_id: match &self.message_id {
                Some(x) => Some(x.clone()),
                None => None,
            },
            user_id: match &self.user_id {
                Some(x) => Some(clone_bytes(x)),
                None => None,
            },
            to: clone_text(&self.to),
            subject: clone_text(&self.subject),
            reply_to: clone_text(&self.reply_to),
            correlation_id: match &self.correlation_id {
                Some(x) => Some(x.clone()),
                None => None,
            },
            content_type: clone_text(&self.content_type),
            content_encoding: clone_text(&self.content_encoding),
            absolute_expiry_time: self.absolute_expiry_time,
            creation_time: self.creation_time,
            group_id: clone_text(&self.group_id),
            group_sequence: self.group_sequence,
            reply_to_group_id: clone_text(&self.reply_to_group_id),
        }
    }
}

} // verus!
