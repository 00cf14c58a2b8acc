//! Messages and builders behind handles, as a foreign caller uses them: every
//! section goes in and comes out as a generic value, and what is wrong with a
//! value is reported, never acted upon.

use crate::annotations::built_section;
use crate::annotations::section_from_value;
use crate::annotations::section_to_value;
use crate::annotations::section_value;
use crate::annotations::value_section;
use crate::annotations::AmqpAnnotationKey;
use crate::annotations::SectionKey;
use crate::error::AmqpError;
use crate::header::AmqpMessageHeader;
use crate::message::AmqpMessage;
use crate::message::AmqpMessageBody;
use crate::message::AmqpMessageBodyType;
use crate::message::AmqpMessageBuilder;
use crate::message::BodyModel;
use crate::message::MessageModel;
use crate::message::Rejected;
use crate::message_codec::decode;
use crate::message_codec::enc_message;
use crate::message_codec::message_fits;
use crate::message_codec::parse_message;
use crate::properties::AmqpMessageProperties;
use crate::value::clone_list;
use crate::value::clone_value;
use crate::value::lemma_list_value_view;
use crate::value::AmqpValue;
use crate::value::ValueModel;
use vstd::prelude::*;
use vstd::slice::slice_to_vec;

verus! {

/// A message behind a handle.
#[derive(Debug)]
pub struct RustAmqpMessage {
    inner: AmqpMessage,
}

/// A builder behind a handle.
#[derive(Debug)]
pub struct RustAmqpMessageBuilder {
    inner: AmqpMessageBuilder,
}

impl View for RustAmqpMessage {
    type V = MessageModel;

    closed spec fn view(&self) -> MessageModel {
        self.inner@
    }
}

impl View for RustAmqpMessageBuilder {
    type V = MessageModel;

    closed spec fn view(&self) -> MessageModel {
        self.inner@
    }
}

impl RustAmqpMessage {
    /// The message behind the handle.
    pub fn get(&self) -> (r: &AmqpMessage)
        ensures
            r@ == self@,
    {
        &self.inner
    }
}

impl From<AmqpMessage> for RustAmqpMessage {
    fn from(inner: AmqpMessage) -> (r: Self) {
        RustAmqpMessage { inner }
    }
}

impl vstd::std_specs::convert::FromSpecImpl<AmqpMessage> for RustAmqpMessage {
    open spec fn obeys_from_spec() -> bool {
        true
    }

    closed spec fn from_spec(inner: AmqpMessage) -> Self {
        RustAmqpMessage { inner }
    }
}

impl RustAmqpMessage {
    /// The handle that `from` gives stands for the message that it was given.
    pub proof fn lemma_from(inner: AmqpMessage)
        ensures
            <RustAmqpMessage as vstd::std_specs::convert::FromSpec<AmqpMessage>>::from_spec(inner)@
                == inner@,
    {
    }
}

impl RustAmqpMessageBuilder {
    /// The builder behind the handle.
    pub fn get(&self) -> (r: &AmqpMessageBuilder)
        ensures
            r@ == self@,
    {
        &self.inner
    }
}

/// A builder that has nothing set.
pub fn messagebuilder_create() -> (b: RustAmqpMessageBuilder)
    ensures
        b@ == MessageModel::empty(),
{
    RustAmqpMessageBuilder { inner: AmqpMessage::builder() }
}

/// Ends the chain and gives the message that was built. A builder with
/// nothing set gives the empty message.
pub fn messagebuilder_build_and_destroy(builder: RustAmqpMessageBuilder) -> (m: RustAmqpMessage)
    ensures
        m@ == builder@,
{
    RustAmqpMessage { inner: builder.inner.build() }
}

/// The empty message: no section, no body data.
pub fn message_create() -> (m: RustAmqpMessage)
    ensures
        m@ == MessageModel::empty(),
        m@.wf(),
{
    RustAmqpMessage { inner: AmqpMessage::default() }
}

/// The message that the bytes stand for. It succeeds exactly on the bytes
/// that are the encoding of a well-formed message, and gives that message; on
/// all other bytes it fails with `DecodeFailure` and hands out nothing.
pub fn message_deserialize(data: &[u8]) -> (r: Result<RustAmqpMessage, AmqpError>)
    ensures
        match r {
            Ok(m) => m@.wf() && message_fits(m@) && enc_message(m@) == data@,
            Err(e) => e == AmqpError::DecodeFailure && forall|m: MessageModel|
                m.wf() && message_fits(m) ==> #[trigger] enc_message(m) != data@,
        },
        r is Ok <==> parse_message(data@) is Some,
        r is Ok ==> parse_message(data@) == Some(r->Ok_0@),
{
    match decode(data) {
        Ok(m) => Ok(RustAmqpMessage { inner: m }),
        Err(e) => Err(e),
    }
}

/// A copy of the header; nothing where the message has no header.
pub fn message_get_header(message: &RustAmqpMessage) -> (r: Option<AmqpMessageHeader>)
    ensures
        r == message@.header,
{
    match message.inner.header() {
        Some(h) => Some(*h),
        None => None,
    }
}

/// A copy of the properties; nothing where the message has no properties.
pub fn message_get_properties(message: &RustAmqpMessage) -> (r: Option<AmqpMessageProperties>)
    ensures
        crate::message::opt_properties_view(r) == message@.properties,
{
    match message.inner.properties() {
        Some(p) => Some(p.clone()),
        None => None,
    }
}

/// The map value of a section map that may be absent.
pub open spec fn opt_section_value<K: SectionKey>(o: Option<Seq<(K::V, ValueModel)>>) -> Option<
    ValueModel,
> {
    match o {
        Some(entries) => Some(section_value::<K>(entries)),
        None => None,
    }
}

/// The view of a value that may be absent.
pub open spec fn opt_value_view(o: Option<AmqpValue>) -> Option<ValueModel> {
    match o {
        Some(v) => Some(v@),
        None => None,
    }
}

/// The delivery annotations as a map value; nothing where the message has
/// none. A section that was set to an empty map gives an empty map value.
pub fn message_get_delivery_annotations(message: &RustAmqpMessage) -> (r: Option<AmqpValue>)
    ensures
        opt_value_view(r) == opt_section_value::<AmqpAnnotationKey>(message@.delivery_annotations),
{
    match message.inner.delivery_annotations() {
        Some(a) => Some(section_to_value(a)),
        None => None,
    }
}

/// The message annotations as a map value; nothing where the message has
/// none.
pub fn message_get_message_annotations(message: &RustAmqpMessage) -> (r: Option<AmqpValue>)
    ensures
        opt_value_view(r) == opt_section_value::<AmqpAnnotationKey>(message@.message_annotations),
{
    match message.inner.message_annotations() {
        Some(a) => Some(section_to_value(a)),
        None => None,
    }
}

/// The application properties as a map value; nothing where the message has
/// none.
pub fn message_get_application_properties(message: &RustAmqpMessage) -> (r: Option<AmqpValue>)
    ensures
        opt_value_view(r) == opt_section_value::<String>(message@.application_properties),
{
    match message.inner.application_properties() {
        Some(a) => Some(section_to_value(a)),
        None => None,
    }
}

/// The footer as a map value; nothing where the message has no footer.
pub fn message_get_footer(message: &RustAmqpMessage) -> (r: Option<AmqpValue>)
    ensures
        opt_value_view(r) == opt_section_value::<AmqpAnnotationKey>(message@.footer),
{
    match message.inner.footer() {
        Some(a) => Some(section_to_value(a)),
        None => None,
    }
}

/// Which of the four shapes the body has.
pub fn message_get_body_type(message: &RustAmqpMessage) -> (r: AmqpMessageBodyType)
    ensures
        r == message@.body.body_type(),
{
    match message.inner.body() {
        AmqpMessageBody::Binary(_) => AmqpMessageBodyType::Data,
        AmqpMessageBody::Value(_) => AmqpMessageBodyType::Value,
        AmqpMessageBody::Sequence(_) => AmqpMessageBodyType::Sequence,
        AmqpMessageBody::Empty => AmqpMessageBodyType::Empty,
    }
}

/// The number of binary chunks. `VariantConflict` where the body is not
/// binary.
pub fn message_get_body_amqp_data_count(message: &RustAmqpMessage) -> (r: Result<usize, AmqpError>)
    ensures
        match r {
            Ok(n) => message@.body is Binary && n == message@.body->Binary_0.len(),
            Err(e) => e == AmqpError::VariantConflict && !(message@.body is Binary),
        },
{
    match message.inner.body() {
        AmqpMessageBody::Binary(chunks) => Ok(chunks.len()),
        _ => Err(AmqpError::VariantConflict),
    }
}

/// The number of list chunks. `VariantConflict` where the body is not a
/// sequence.
pub fn message_get_body_amqp_sequence_count(message: &RustAmqpMessage) -> (r: Result<
    usize,
    AmqpError,
>)
    ensures
        match r {
            Ok(n) => message@.body is Sequence && n == message@.body->Sequence_0.len(),
            Err(e) => e == AmqpError::VariantConflict && !(message@.body is Sequence),
        },
{
    match message.inner.body() {
        AmqpMessageBody::Sequence(lists) => Ok(lists.len()),
        _ => Err(AmqpError::VariantConflict),
    }
}

/// The binary chunk at place `index`, where it lies in the message.
/// `VariantConflict` where the body is not binary; `IndexOutOfRange` where it
/// is binary and has no chunk at that place.
pub fn message_get_body_amqp_data_in_place(message: &RustAmqpMessage, index: u32) -> (r: Result<
    &Vec<u8>,
    AmqpError,
>)
    ensures
        match r {
            Ok(chunk) => message@.body is Binary && index < message@.body->Binary_0.len()
                && chunk@ == message@.body->Binary_0[index as int],
            Err(e) => if message@.body is Binary {
                e == AmqpError::IndexOutOfRange && index >= message@.body->Binary_0.len()
            } else {
                e == AmqpError::VariantConflict
            },
        },
{
    match message.inner.body() {
        AmqpMessageBody::Binary(chunks) => {
            let i = index as usize;
            if i < chunks.len() {
                Ok(&chunks[i])
            } else {
                Err(AmqpError::IndexOutOfRange)
            }
        },
        _ => Err(AmqpError::VariantConflict),
    }
}

/// A copy of the list chunk at place `index`, as a list value.
/// `VariantConflict` where the body is not a sequence; `IndexOutOfRange`
/// where it is a sequence and has no chunk at that place.
pub fn message_get_body_amqp_sequence_in_place(message: &RustAmqpMessage, index: u32) -> (r:
    Result<AmqpValue, AmqpError>)
    ensures
        match r {
            Ok(v) => message@.body is Sequence && index < message@.body->Sequence_0.len() && v@
                == ValueModel::List(message@.body->Sequence_0[index as int]),
            Err(e) => if message@.body is Sequence {
                e == AmqpError::IndexOutOfRange && index >= message@.body->Sequence_0.len()
            } else {
                e == AmqpError::VariantConflict
            },
        },
{
    match message.inner.body() {
        AmqpMessageBody::Sequence(lists) => {
            let i = index as usize;
            if i < lists.len() {
                let items = clone_list(&lists[i]);
                proof {
                    lemma_list_value_view(items);
                }
                Ok(AmqpValue::List(items))
            } else {
                Err(AmqpError::IndexOutOfRange)
            }
        },
        _ => Err(AmqpError::VariantConflict),
    }
}

/// A copy of the value that is the body. `VariantConflict` where the body is
/// not a value.
pub fn message_get_body_amqp_value_in_place(message: &RustAmqpMessage) -> (r: Result<
    AmqpValue,
    AmqpError,
>)
    ensures
        match r {
            Ok(v) => message@.body == BodyModel::Value(v@),
            Err(e) => e == AmqpError::VariantConflict && !(message@.body is Value),
        },
{
    match message.inner.body() {
        AmqpMessageBody::Value(v) => Ok(clone_value(v)),
        _ => Err(AmqpError::VariantConflict),
    }
}

/// What a section map is set from: a value is taken where it is a map with
/// admissible keys only, and refused with the error that says what is wrong
/// with it.
pub open spec fn section_input<K: SectionKey>(v: ValueModel) -> Result<
    Seq<(K::V, ValueModel)>,
    AmqpError,
> {
    if !(v is Dict) {
        Err(AmqpError::MapRequired)
    } else if value_section::<K>(v) is None {
        Err(AmqpError::KeyTypeRequired)
    } else {
        Ok(built_section::<K>(v))
    }
}

/// A well-formed map value with admissible keys is taken as the section map
/// that it stands for, entry by entry, and that section map is well formed: a
/// message that is built from well-formed values is well formed.
pub proof fn lemma_section_input_wf<K: SectionKey>(v: ValueModel)
    requires
        crate::value::value_wf(v),
        section_input::<K>(v) is Ok,
    ensures
        section_input::<K>(v)->Ok_0 == value_section::<K>(v)->0,
        crate::annotations::section_wf(section_input::<K>(v)->Ok_0),
{
    crate::annotations::lemma_built_section::<K>(v);
}

/// Sets the delivery annotations from a map value with integer or symbol
/// keys, in place of any set before. A value that is no map is refused with
/// `MapRequired`, a map with another kind of key with `KeyTypeRequired`; the
/// builder comes back as it was.
pub fn messagebuilder_set_delivery_annotations(
    builder: RustAmqpMessageBuilder,
    delivery_annotations: &AmqpValue,
) -> (r: Result<RustAmqpMessageBuilder, Rejected<RustAmqpMessageBuilder>>)
    ensures
        match r {
            Ok(b) => section_input::<AmqpAnnotationKey>(delivery_annotations@) is Ok && b@ == (
            MessageModel {
                delivery_annotations: Some(
                    section_input::<AmqpAnnotationKey>(delivery_annotations@)->Ok_0,
                ),
                ..builder@
            }),
            Err(rejected) => section_input::<AmqpAnnotationKey>(delivery_annotations@) is Err && section_input::<AmqpAnnotationKey>(delivery_annotations@)->Err_0 == rejected.error && rejected.builder@ == builder@,
        },
{
    match section_from_value::<AmqpAnnotationKey>(delivery_annotations) {
        Ok(map) => Ok(
            RustAmqpMessageBuilder { inner: builder.inner.with_delivery_annotations(map) },
        ),
        Err(error) => Err(Rejected { builder, error }),
    }
}

/// Sets the message annotations from a map value with integer or symbol
/// keys, in place of any set before. A value that is no map is refused with
/// `MapRequired`, a map with another kind of key with `KeyTypeRequired`; the
/// builder comes back as it was.
pub fn messagebuilder_set_message_annotations(
    builder: RustAmqpMessageBuilder,
    message_annotations: &AmqpValue,
) -> (r: Result<RustAmqpMessageBuilder, Rejected<RustAmqpMessageBuilder>>)
    ensures
        match r {
            Ok(b) => section_input::<AmqpAnnotationKey>(message_annotations@) is Ok && b@ == (
            MessageModel {
                message_annotations: Some(
                    section_input::<AmqpAnnotationKey>(message_annotations@)->Ok_0,
                ),
                ..builder@
            }),
            Err(rejected) => section_input::<AmqpAnnotationKey>(message_annotations@) is Err && section_input::<AmqpAnnotationKey>(message_annotations@)->Err_0 == rejected.error && rejected.builder@ == builder@,
        },
{
    match section_from_value::<AmqpAnnotationKey>(message_annotations) {
        Ok(map) => Ok(
            RustAmqpMessageBuilder { inner: builder.inner.with_message_annotations(map) },
        ),
        Err(error) => Err(Rejected { builder, error }),
    }
}

/// Sets the application properties from a map value whose keys are all text,
/// in place of any set before. A value that is no map is refused with
/// `MapRequired`, a map with a key that is not text with `KeyTypeRequired`;
/// the builder comes back as it was and can be used further.
pub fn messagebuilder_set_application_properties(
    builder: RustAmqpMessageBuilder,
    application_properties: &AmqpValue,
) -> (r: Result<RustAmqpMessageBuilder, Rejected<RustAmqpMessageBuilder>>)
    ensures
        match r {
            Ok(b) => section_input::<String>(application_properties@) is Ok && b@ == (MessageModel {
                application_properties: Some(
                    section_input::<String>(application_properties@)->Ok_0,
                ),
                ..builder@
            }),
            Err(rejected) => section_input::<String>(application_properties@) is Err && section_input::<String>(application_properties@)->Err_0 == rejected.error && rejected.builder@ == builder@,
        },
{
    match section_from_value::<String>(application_properties) {
        Ok(map) => Ok(
            RustAmqpMessageBuilder { inner: builder.inner.with_application_properties(map) },
        ),
        Err(error) => Err(Rejected { builder, error }),
    }
}

/// Sets the footer from a map value with integer or symbol keys, in place of
/// any footer set before. A value that is no map is refused with
/// `MapRequired`, a map with another kind of key with `KeyTypeRequired`; the
/// builder comes back as it was.
pub fn messagebuilder_set_footer(builder: RustAmqpMessageBuilder, footer: &AmqpValue) -> (r:
    Result<RustAmqpMessageBuilder, Rejected<RustAmqpMessageBuilder>>)
    ensures
        match r {
            Ok(b) => section_input::<AmqpAnnotationKey>(footer@) is Ok && b@ == (MessageModel {
                footer: Some(section_input::<AmqpAnnotationKey>(footer@)->Ok_0),
                ..builder@
            }),
            Err(rejected) => section_input::<AmqpAnnotationKey>(footer@) is Err && section_input::<AmqpAnnotationKey>(footer@)->Err_0 == rejected.error && rejected.builder@ == builder@,
        },
{
    match section_from_value::<AmqpAnnotationKey>(footer) {
        Ok(map) => Ok(RustAmqpMessageBuilder { inner: builder.inner.with_footer(map) }),
        Err(error) => Err(Rejected { builder, error }),
    }
}

/// Sets the header, in place of any header set before.
pub fn messagebuilder_set_header(
    builder: RustAmqpMessageBuilder,
    message_header: &AmqpMessageHeader,
) -> (b: RustAmqpMessageBuilder)
    ensures
        b@ == (MessageModel { header: Some(*message_header), ..builder@ }),
{
    RustAmqpMessageBuilder { inner: builder.inner.with_header(*message_header) }
}

/// Sets the properties, in place of any properties set before.
pub fn messagebuilder_set_properties(
    builder: RustAmqpMessageBuilder,
    message_properties: &AmqpMessageProperties,
) -> (b: RustAmqpMessageBuilder)
    ensures
        b@ == (MessageModel { properties: Some(message_properties@), ..builder@ }),
{
    RustAmqpMessageBuilder { inner: builder.inner.with_properties(message_properties.clone()) }
}

/// Appends a copy of `data` to the body as one more binary chunk. Refused
/// with `VariantConflict` where the body already is a sequence or a value;
/// the builder comes back as it was.
pub fn messagebuilder_add_body_amqp_data(builder: RustAmqpMessageBuilder, data: &[u8]) -> (r:
    Result<RustAmqpMessageBuilder, Rejected<RustAmqpMessageBuilder>>)
    ensures
        match r {
            Ok(b) => builder@.add_binary_chunk(data@) == Some(b@),
            Err(rejected) => builder@.add_binary_chunk(data@) is None && rejected.error
                == AmqpError::VariantConflict && rejected.builder@ == builder@,
        },
{
    let chunk = slice_to_vec(data);
    match builder.inner.add_message_body_binary(chunk) {
        Ok(inner) => Ok(RustAmqpMessageBuilder { inner }),
        Err(rejected) => Err(
            Rejected {
                builder: RustAmqpMessageBuilder { inner: rejected.builder },
                error: rejected.error,
            },
        ),
    }
}

/// Appends a copy of the list `data` to the body as one more list chunk. A
/// value that is no list is refused with `ListRequired`; a list is refused
/// with `VariantConflict` where the body already is binary or a value. The
/// builder comes back as it was.
pub fn messagebuilder_add_body_amqp_sequence(builder: RustAmqpMessageBuilder, data: &AmqpValue)
    -> (r: Result<RustAmqpMessageBuilder, Rejected<RustAmqpMessageBuilder>>)
    ensures
        match r {
            Ok(b) => data@ is List && builder@.add_sequence_chunk(data@->List_0) == Some(b@),
            Err(rejected) => rejected.builder@ == builder@ && if data@ is List {
                rejected.error == AmqpError::VariantConflict && builder@.add_sequence_chunk(
                    data@->List_0,
                ) is None
            } else {
                rejected.error == AmqpError::ListRequired
            },
        },
{
    match data {
        AmqpValue::List(list) => {
            proof {
                lemma_list_value_view(*list);
            }
            match builder.inner.add_message_body_sequence(clone_list(list)) {
                Ok(inner) => Ok(RustAmqpMessageBuilder { inner }),
                Err(rejected) => Err(
                    Rejected {
                        builder: RustAmqpMessageBuilder { inner: rejected.builder },
                        error: rejected.error,
                    },
                ),
            }
        },
        _ => Err(Rejected { builder, error: AmqpError::ListRequired }),
    }
}

/// Makes a copy of `data` the body, in place of whatever the body was.
pub fn messagebuilder_set_body_amqp_value(builder: RustAmqpMessageBuilder, data: &AmqpValue) -> (b:
    RustAmqpMessageBuilder)
    ensures
        b@ == builder@.with_body_value(data@),
{
    RustAmqpMessageBuilder { inner: builder.inner.with_body(clone_value(data)) }
}

} // verus!
