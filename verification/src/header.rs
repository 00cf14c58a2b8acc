//! The header section: how a message is to be delivered.

use crate::value::lemma_list_value_view;
use crate::value::list_view;
use crate::value::value_wf;
use crate::value::AmqpValue;
use crate::value::ValueModel;
use vstd::prelude::*;

verus! {

/// Delivery-control metadata. The header is plain data, and is its own model.
#[derive(Clone, Copy, Debug, PartialEq, Eq)]
pub struct AmqpMessageHeader {
    pub durable: bool,
    pub priority: u8,
    /// Milliseconds for which the message is live; absent for no limit.
    pub time_to_live: Option<u32>,
    pub first_acquirer: bool,
    pub delivery_count: u32,
}

/// The priority of a message whose header does not set one.
pub const DEFAULT_PRIORITY: u8 = 4;

impl Default for AmqpMessageHeader {
    fn default() -> (h: Self)
        ensures
            h == (AmqpMessageHeader {
                durable: false,
                priority: DEFAULT_PRIORITY,
                time_to_live: None,
                first_acquirer: false,
                delivery_count: 0,
            }),
    {
        AmqpMessageHeader {
            durable: false,
            priority: DEFAULT_PRIORITY,
            time_to_live: None,
            first_acquirer: false,
            delivery_count: 0,
        }
    }
}

/// The list value that stands for a header: its five fields in order, an
/// absent time to live as null.
pub open spec fn header_value(h: AmqpMessageHeader) -> ValueModel {
    ValueModel::List(
        seq![
            ValueModel::Boolean(h.durable),
            ValueModel::UByte(h.priority),
            match h.time_to_live {
                Some(ms) => ValueModel::UInt(ms),
                None => ValueModel::Null,
            },
            ValueModel::Boolean(h.first_acquirer),
            ValueModel::UInt(h.delivery_count),
        ],
    )
}

/// The header that a value stands for: the value is a list of exactly the
/// five fields, each of its kind.
pub open spec fn value_header(v: ValueModel) -> Option<AmqpMessageHeader> {
    match v {
        ValueModel::List(items) => if items.len() == 5 && items[0] is Boolean && items[1] is UByte
            && (items[2] is UInt || items[2] is Null) && items[3] is Boolean && items[4] is UInt {
            Some(
                AmqpMessageHeader {
                    durable: items[0]->Boolean_0,
                    priority: items[1]->UByte_0,
                    time_to_live: if items[2] is UInt {
                        Some(items[2]->UInt_0)
                    } else {
                        None
                    },
                    first_acquirer: items[3]->Boolean_0,
                    delivery_count: items[4]->UInt_0,
                },
            )
        } else {
            None
        },
        _ => None,
    }
}

/// The value of a header stands for that header, is well formed and fits.
pub proof fn lemma_header_of_value(h: AmqpMessageHeader)
    ensures
        value_header(header_value(h)) == Some(h),
        value_wf(header_value(h)),
        crate::value::value_fits(header_value(h)),
{
    let items = header_value(h)->List_0;
    assert forall|i: int| 0 <= i < items.len() implies value_wf(#[trigger] items[i])
        && crate::value::value_fits(items[i]) by {
        if i == 0 {
        } else if i == 1 {
        } else if i == 2 {
        } else if i == 3 {
        } else {
        }
    }
    assert(crate::value::list_wf(items));
    assert(crate::value::list_fits(items));
}

/// A value that stands for a header is the value of that header.
pub proof fn lemma_value_of_header(v: ValueModel)
    requires
        value_header(v) is Some,
    ensures
        header_value(value_header(v)->0) == v,
{
    let items = v->List_0;
    let h = value_header(v)->0;
    assert(header_value(h)->List_0 =~= items);
}

impl AmqpMessageHeader {
    /// The list value that stands for the header.
    pub fn to_value(&self) -> (v: AmqpValue)
        ensures
            v@ == header_value(*self),
    {
        let mut items: Vec<AmqpValue> = Vec::new();
        items.push(AmqpValue::Boolean(self.durable));
        items.push(AmqpValue::UByte(self.priority));
        items.push(
            match self.time_to_live {
                Some(ms) => AmqpValue::UInt(ms),
                None => AmqpValue::Null,
            },
        );
        items.push(AmqpValue::Boolean(self.first_acquirer));
        items.push(AmqpValue::UInt(self.delivery_count));
        proof {
            lemma_list_value_view(items);
            assert(list_view(items@) =~= header_value(*self)->List_0);
        }
        AmqpValue::List(items)
    }

    /// The header that a value stands for, where it stands for one.
    pub fn from_value(v: &AmqpValue) -> (r: Option<Self>)
        ensures
            r == value_header(v@),
    {
        match v {
            AmqpValue::List(items) => {
                proof {
                    lemma_list_value_view(*items);
                }
                if items.len() != 5 {
                    return None;
                }
                assert(forall|i: int| 0 <= i < 5 ==> list_view(items@)[i] == items@[i]@);
                let durable = match &items[0] {
                    AmqpValue::Boolean(x) => *x,
                    _ => {
                        return None;
                    },
                };
                let priority = match &items[1] {
                    AmqpValue::UByte(x) => *x,
                    _ => {
                        return None;
                    },
                };
                let time_to_live = match &items[2] {
                    AmqpValue::UInt(x) => Some(*x),
                    AmqpValue::Null => None,
                    _ => {
                        return None;
                    },
                };
                let first_acquirer = match &items[3] {
                    AmqpValue::Boolean(x) => *x,
                    _ => {
                        return None;
                    },
                };
                let delivery_count = match &items[4] {
                    AmqpValue::UInt(x) => *x,
                    _ => {
                        return None;
                    },
                };
                Some(
                    AmqpMessageHeader {
                        durable,
                        priority,
                        time_to_live,
                        first_acquirer,
                        delivery_count,
                    },
                )
            },
            _ => None,
        }
    }
}

} // verus!
