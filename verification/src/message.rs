//! The message: zero or one of each section and exactly one body, and the
//! builder that assembles it.
//!
//! A message cannot be changed once it is built. A section that was never set
//! is absent, which is not the same as a section that was set to an empty map.

use crate::annotations::section_wf;
use crate::annotations::AmqpAnnotations;
use crate::annotations::AmqpApplicationProperties;
use crate::annotations::KeyModel;
use crate::error::AmqpError;
use crate::header::AmqpMessageHeader;
use crate::properties::AmqpMessageProperties;
use crate::properties::PropertiesModel;
use crate::value::list_view;
use crate::value::list_wf;
use crate::value::value_wf;
use crate::value::AmqpList;
use crate::value::AmqpValue;
use crate::value::ValueModel;
use vstd::prelude::*;

verus! {

/// What a body is: exactly one of four shapes.
pub enum BodyModel {
    /// No body data.
    Empty,
    /// Opaque binary chunks, in order.
    Binary(Seq<Seq<u8>>),
    /// List-valued chunks, in order.
    Sequence(Seq<Seq<ValueModel>>),
    /// A single value.
    Value(ValueModel),
}

/// The body of a message.
#[derive(Debug, PartialEq, Eq)]
pub enum AmqpMessageBody {
    Binary(Vec<Vec<u8>>),
    Sequence(Vec<AmqpList>),
    Value(AmqpValue),
    Empty,
}

/// Which of the four shapes a body has.
#[derive(Clone, Copy, Debug, PartialEq, Eq, Structural)]
pub enum AmqpMessageBodyType {
    Data,
    Sequence,
    Value,
    Empty,
}

/// The models of binary chunks.
pub open spec fn chunks_view(chunks: Seq<Vec<u8>>) -> Seq<Seq<u8>> {
    Seq::new(chunks.len(), |i: int| chunks[i]@)
}

/// The models of list chunks.
pub open spec fn lists_view(lists: Seq<Vec<AmqpValue>>) -> Seq<Seq<ValueModel>> {
    Seq::new(lists.len(), |i: int| list_view(lists[i]@))
}

impl View for AmqpMessageBody {
    type V = BodyModel;

    open spec fn view(&self) -> BodyModel {
        match self {
            AmqpMessageBody::Binary(chunks) => BodyModel::Binary(chunks_view(chunks@)),
            AmqpMessageBody::Sequence(lists) => BodyModel::Sequence(lists_view(lists@)),
            AmqpMessageBody::Value(v) => BodyModel::Value(v@),
            AmqpMessageBody::Empty => BodyModel::Empty,
        }
    }
}

impl BodyModel {
    /// Which shape the body has.
    pub open spec fn body_type(self) -> AmqpMessageBodyType {
        match self {
            BodyModel::Binary(_) => AmqpMessageBodyType::Data,
            BodyModel::Sequence(_) => AmqpMessageBodyType::Sequence,
            BodyModel::Value(_) => AmqpMessageBodyType::Value,
            BodyModel::Empty => AmqpMessageBodyType::Empty,
        }
    }

    /// A body of chunks has at least one chunk, and every value in a body is
    /// well formed.
    pub open spec fn wf(self) -> bool {
        match self {
            BodyModel::Binary(chunks) => chunks.len() > 0,
            BodyModel::Sequence(lists) => lists.len() > 0 && forall|i: int|
                0 <= i < lists.len() ==> list_wf(#[trigger] lists[i]),
            BodyModel::Value(v) => value_wf(v),
            BodyModel::Empty => true,
        }
    }
}

/// What a message is.
pub struct MessageModel {
    pub header: Option<AmqpMessageHeader>,
    pub delivery_annotations: Option<Seq<(KeyModel, ValueModel)>>,
    pub message_annotations: Option<Seq<(KeyModel, ValueModel)>>,
    pub properties: Option<PropertiesModel>,
    pub application_properties: Option<Seq<(Seq<char>, ValueModel)>>,
    pub body: BodyModel,
    pub footer: Option<Seq<(KeyModel, ValueModel)>>,
}

/// A section map that may be absent is well formed where it is absent or the
/// map is well formed.
pub open spec fn opt_section_wf<KV>(o: Option<Seq<(KV, ValueModel)>>) -> bool {
    match o {
        Some(entries) => section_wf(entries),
        None => true,
    }
}

impl MessageModel {
    /// The message without any section and without body data.
    pub open spec fn empty() -> MessageModel {
        MessageModel {
            header: None,
            delivery_annotations: None,
            message_annotations: None,
            properties: None,
            application_properties: None,
            body: BodyModel::Empty,
            footer: None,
        }
    }

    /// The message with the single value `v` as its body, whatever its body
    /// was.
    pub open spec fn with_body_value(self, v: ValueModel) -> MessageModel {
        MessageModel { body: BodyModel::Value(v), ..self }
    }

    /// The message with one more binary chunk. There is none where the body
    /// is a sequence or a value.
    pub open spec fn add_binary_chunk(self, chunk: Seq<u8>) -> Option<MessageModel> {
        match self.body {
            BodyModel::Empty => Some(MessageModel { body: BodyModel::Binary(seq![chunk]), ..self }),
            BodyModel::Binary(chunks) => Some(
                MessageModel { body: BodyModel::Binary(chunks.push(chunk)), ..self },
            ),
            _ => None,
        }
    }

    /// The message with one more list chunk. There is none where the body is
    /// binary or a value.
    pub open spec fn add_sequence_chunk(self, list: Seq<ValueModel>) -> Option<MessageModel> {
        match self.body {
            BodyModel::Empty => Some(
                MessageModel { body: BodyModel::Sequence(seq![list]), ..self },
            ),
            BodyModel::Sequence(lists) => Some(
                MessageModel { body: BodyModel::Sequence(lists.push(list)), ..self },
            ),
            _ => None,
        }
    }

    /// Every map of the message is well formed, and so is the body.
    pub open spec fn wf(self) -> bool {
        &&& opt_section_wf(self.delivery_annotations)
        &&& opt_section_wf(self.message_annotations)
        &&& opt_section_wf(self.application_properties)
        &&& opt_section_wf(self.footer)
        &&& self.body.wf()
    }
}

/// The model of a section map that may be absent.
pub open spec fn opt_map_view<K: View>(o: Option<crate::ordered_map::AmqpOrderedMap<K, AmqpValue>>)
    -> Option<Seq<(K::V, ValueModel)>> {
    match o {
        Some(m) => Some(m@),
        None => None,
    }
}

/// The model of properties that may be absent.
pub open spec fn opt_properties_view(o: Option<AmqpMessageProperties>) -> Option<PropertiesModel> {
    match o {
        Some(p) => Some(p@),
        None => None,
    }
}

/// A message: immutable once it is made.
#[derive(Debug, PartialEq, Eq)]
pub struct AmqpMessage {
    header: Option<AmqpMessageHeader>,
    delivery_annotations: Option<AmqpAnnotations>,
    message_annotations: Option<AmqpAnnotations>,
    properties: Option<AmqpMessageProperties>,
    application_properties: Option<AmqpApplicationProperties>,
    body: AmqpMessageBody,
    footer: Option<AmqpAnnotations>,
}

impl View for AmqpMessage {
    type V = MessageModel;

    closed spec fn view(&self) -> MessageModel {
        MessageModel {
            header: self.header,
            delivery_annotations: opt_map_view(self.delivery_annotations),
            message_annotations: opt_map_view(self.message_annotations),
            properties: opt_properties_view(self.properties),
            application_properties: opt_map_view(self.application_properties),
            body: self.body@,
            footer: opt_map_view(self.footer),
        }
    }
}

impl AmqpMessage {
    /// A builder that has nothing set.
    pub fn builder() -> (b: AmqpMessageBuilder)
        ensures
            b@ == MessageModel::empty(),
    {
        AmqpMessageBuilder::new()
    }

    /// The header, where the message has one.
    pub fn header(&self) -> (r: Option<&AmqpMessageHeader>)
        ensures
            match r {
                Some(h) => self@.header == Some(*h),
                None => self@.header is None,
            },
    {
        self.header.as_ref()
    }

    /// The delivery annotations, where the message has them.
    pub fn delivery_annotations(&self) -> (r: Option<&AmqpAnnotations>)
        ensures
            match r {
                Some(a) => self@.delivery_annotations == Some(a@),
                None => self@.delivery_annotations is None,
            },
    {
        self.delivery_annotations.as_ref()
    }

    /// The message annotations, where the message has them.
    pub fn message_annotations(&self) -> (r: Option<&AmqpAnnotations>)
        ensures
            match r {
                Some(a) => self@.message_annotations == Some(a@),
                None => self@.message_annotations is None,
            },
    {
        self.message_annotations.as_ref()
    }

    /// The properties, where the message has them.
    pub fn properties(&self) -> (r: Option<&AmqpMessageProperties>)
        ensures
            match r {
                Some(p) => self@.properties == Some(p@),
                None => self@.properties is None,
            },
    {
        self.properties.as_ref()
    }

    /// The application properties, where the message has them.
    pub fn application_properties(&self) -> (r: Option<&AmqpApplicationProperties>)
        ensures
            match r {
                Some(a) => self@.application_properties == Some(a@),
                None => self@.application_properties is None,
            },
    {
        self.application_properties.as_ref()
    }

    /// The footer, where the message has one.
    pub fn footer(&self) -> (r: Option<&AmqpAnnotations>)
        ensures
            match r {
                Some(a) => self@.footer == Some(a@),
                None => self@.footer is None,
            },
    {
        self.footer.as_ref()
    }

    /// The body.
    pub fn body(&self) -> (r: &AmqpMessageBody)
        ensures
            r@ == self@.body,
    {
        &self.body
    }
}

impl Default for AmqpMessage {
    /// The empty message: no section, no body data.
    fn default() -> (m: Self)
        ensures
            m@ == MessageModel::empty(),
            m@.wf(),
    {
        AmqpMessage {
            header: None,
            delivery_annotations: None,
            message_annotations: None,
            properties: None,
            application_properties: None,
            body: AmqpMessageBody::Empty,
            footer: None,
        }
    }
}

/// A step of a builder that was refused: the builder as it was before the
/// step, and why the step was refused.
#[derive(Debug)]
pub struct Rejected<B> {
    pub builder: B,
    pub error: AmqpError,
}

/// Assembles a message step by step. Each step takes the builder and gives
/// the next one; `build` ends the chain.
#[derive(Debug)]
pub struct AmqpMessageBuilder {
    message: AmqpMessage,
}

impl View for AmqpMessageBuilder {
    type V = MessageModel;

    closed spec fn view(&self) -> MessageModel {
        self.message@
    }
}

impl AmqpMessageBuilder {
    /// A builder that has nothing set.
    pub fn new() -> (b: Self)
        ensures
            b@ == MessageModel::empty(),
    {
        AmqpMessageBuilder { message: AmqpMessage::default() }
    }

    /// Sets the header, in place of any header set before.
    pub fn with_header(self, header: AmqpMessageHeader) -> (b: Self)
        ensures
            b@ == (MessageModel { header: Some(header), ..self@ }),
    {
        let mut message = self.message;
        message.header = Some(header);
        AmqpMessageBuilder { message }
    }

    /// Sets the properties, in place of any properties set before.
    pub fn with_properties(self, properties: AmqpMessageProperties) -> (b: Self)
        ensures
            b@ == (MessageModel { properties: Some(properties@), ..self@ }),
    {
        let mut message = self.message;
        message.properties = Some(properties);
        AmqpMessageBuilder { message }
    }

    /// Sets the delivery annotations, in place of any set before.
    pub fn with_delivery_annotations(self, annotations: AmqpAnnotations) -> (b: Self)
        ensures
            b@ == (MessageModel { delivery_annotations: Some(annotations@), ..self@ }),
    {
        let mut message = self.message;
        message.delivery_annotations = Some(annotations);
        AmqpMessageBuilder { message }
    }

    /// Sets the message annotations, in place of any set before.
    pub fn with_message_annotations(self, annotations: AmqpAnnotations) -> (b: Self)
        ensures
            b@ == (MessageModel { message_annotations: Some(annotations@), ..self@ }),
    {
        let mut message = self.message;
        message.message_annotations = Some(annotations);
        AmqpMessageBuilder { message }
    }

    /// Sets the application properties, in place of any set before.
    pub fn with_application_properties(self, properties: AmqpApplicationProperties) -> (b: Self)
        ensures
            b@ == (MessageModel { application_properties: Some(properties@), ..self@ }),
    {
        let mut message = self.message;
        message.application_properties = Some(properties);
        AmqpMessageBuilder { message }
    }

    /// Sets the footer, in place of any footer set before.
    pub fn with_footer(self, footer: AmqpAnnotations) -> (b: Self)
        ensures
            b@ == (MessageModel { footer: Some(footer@), ..self@ }),
    {
        let mut message = self.message;
        message.footer = Some(footer);
        AmqpMessageBuilder { message }
    }

    /// Appends a binary chunk to the body. The first chunk makes the body a
    /// binary body. Refused with `VariantConflict` where the body already is
    /// a sequence or a value.
    pub fn add_message_body_binary(self, chunk: Vec<u8>) -> (r: Result<Self, Rejected<Self>>)
        ensures
            match r {
                Ok(b) => self@.add_binary_chunk(chunk@) == Some(b@),
                Err(rejected) => self@.add_binary_chunk(chunk@) is None && rejected.error
                    == AmqpError::VariantConflict && rejected.builder@ == self@,
            },
    {
        let mut message = self.message;
        match message.body {
            AmqpMessageBody::Empty => {
                let mut chunks: Vec<Vec<u8>> = Vec::new();
                chunks.push(chunk);
                assert(chunks_view(chunks@) =~= seq![chunk@]);
                message.body = AmqpMessageBody::Binary(chunks);
                Ok(AmqpMessageBuilder { message })
            },
            AmqpMessageBody::Binary(mut chunks) => {
                let ghost before = chunks_view(chunks@);
                chunks.push(chunk);
                assert(chunks_view(chunks@) =~= before.push(chunk@));
                message.body = AmqpMessageBody::Binary(chunks);
                Ok(AmqpMessageBuilder { message })
            },
            _ => Err(
                Rejected {
                    builder: AmqpMessageBuilder { message },
                    error: AmqpError::VariantConflict,
                },
            ),
        }
    }

    /// Appends a list chunk to the body. The first chunk makes the body a
    /// sequence body. Refused with `VariantConflict` where the body already
    /// is binary or a value.
    pub fn add_message_body_sequence(self, list: AmqpList) -> (r: Result<Self, Rejected<Self>>)
        ensures
            match r {
                Ok(b) => self@.add_sequence_chunk(list_view(list@)) == Some(b@),
                Err(rejected) => self@.add_sequence_chunk(list_view(list@)) is None
                    && rejected.error == AmqpError::VariantConflict && rejected.builder@ == self@,
            },
    {
        let mut message = self.message;
        match message.body {
            AmqpMessageBody::Empty => {
                let mut lists: Vec<AmqpList> = Vec::new();
                lists.push(list);
                assert(lists_view(lists@) =~= seq![list_view(list@)]);
                message.body = AmqpMessageBody::Sequence(lists);
                Ok(AmqpMessageBuilder { message })
            },
            AmqpMessageBody::Sequence(mut lists) => {
                let ghost before = lists_view(lists@);
                lists.push(list);
                assert(lists_view(lists@) =~= before.push(list_view(list@)));
                message.body = AmqpMessageBody::Sequence(lists);
                Ok(AmqpMessageBuilder { message })
            },
            _ => Err(
                Rejected {
                    builder: AmqpMessageBuilder { message },
                    error: AmqpError::VariantConflict,
                },
            ),
        }
    }

    /// Makes the body the single value `value`, in place of whatever the body
    /// was before.
    pub fn with_body(self, value: AmqpValue) -> (b: Self)
        ensures
            b@ == self@.with_body_value(value@),
    {
        let mut message = self.message;
        message.body = AmqpMessageBody::Value(value);
        AmqpMessageBuilder { message }
    }

    /// Sets the body as a whole.
    pub(crate) fn with_message_body(self, body: AmqpMessageBody) -> (b: Self)
        ensures
            b@ == (MessageModel { body: body@, ..self@ }),
    {
        let mut message = self.message;
        message.body = body;
        AmqpMessageBuilder { message }
    }

    /// Ends the chain and gives the message. Nothing is checked here beyond
    /// what each step checked: a builder with nothing set gives the empty
    /// message.
    pub fn build(self) -> (m: AmqpMessage)
        ensures
            m@ == self@,
    {
        self.message
    }
}

/// Once the body is a value, a chunk of either kind is refused: the body does
/// not silently change its variant.
pub proof fn lemma_value_then_chunk_conflicts(
    m: MessageModel,
    v: ValueModel,
    chunk: Seq<u8>,
    list: Seq<ValueModel>,
)
    ensures
        m.with_body_value(v).add_binary_chunk(chunk) is None,
        m.with_body_value(v).add_sequence_chunk(list) is None,
{
}

/// A body never holds chunks of both kinds: once it has a chunk of one kind,
/// a chunk of the other kind is refused, and one of the same kind is taken.
pub proof fn lemma_chunks_of_one_kind(m: MessageModel, chunk: Seq<u8>, list: Seq<ValueModel>)
    ensures
        m.add_binary_chunk(chunk) is Some ==> m.add_binary_chunk(chunk)->0.add_sequence_chunk(list)
            is None && m.add_binary_chunk(chunk)->0.add_binary_chunk(chunk) is Some,
        m.add_sequence_chunk(list) is Some ==> m.add_sequence_chunk(list)->0.add_binary_chunk(
            chunk,
        ) is None && m.add_sequence_chunk(list)->0.add_sequence_chunk(list) is Some,
{
}

/// Adding a chunk to a well-formed message gives a well-formed message, where
/// the chunk is well formed.
pub proof fn lemma_chunk_keeps_wf(m: MessageModel, chunk: Seq<u8>, list: Seq<ValueModel>)
    requires
        m.wf(),
    ensures
        m.add_binary_chunk(chunk) is Some ==> m.add_binary_chunk(chunk)->0.wf(),
        m.add_sequence_chunk(list) is Some && list_wf(list) ==> m.add_sequence_chunk(list)->0.wf(),
{
    if m.add_sequence_chunk(list) is Some && list_wf(list) {
        let lists = m.add_sequence_chunk(list)->0.body->Sequence_0;
        assert forall|i: int| 0 <= i < lists.len() implies list_wf(#[trigger] lists[i]) by {
            if m.body is Sequence && i < m.body->Sequence_0.len() {
                assert(lists[i] == m.body->Sequence_0[i]);
            }
        }
    }
}

} // verus!
