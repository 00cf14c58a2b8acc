//! The encoding of a message: its sections, one after the other.
//!
//! A section on the wire is a descriptor of three bytes, the last of which
//! says which section it is, and one value. The sections come in a fixed
//! order: header, delivery annotations, message annotations, properties,
//! application properties, the body, footer. A section that the message does
//! not have is not written. A binary body is one data section for each chunk,
//! a sequence body one sequence section for each list, a value body a single
//! value section, and an empty body nothing at all.

use crate::annotations::section_value;
use crate::annotations::value_section;
use crate::annotations::AmqpAnnotationKey;
use crate::annotations::SectionKey;
use crate::header::header_value;
use crate::header::value_header;
use crate::header::AmqpMessageHeader;
use crate::message::BodyModel;
use crate::message::MessageModel;
use crate::properties::properties_value;
use crate::properties::value_properties;
use crate::properties::PropertiesModel;
use crate::value::list_wf;
use crate::value::value_fits;
use crate::value::value_wf;
use crate::value::ValueModel;
use crate::value_codec::enc_value;
use crate::value_codec::parse_value;
use crate::annotations::section_from_value;
use crate::error::AmqpError;
use crate::message::chunks_view;
use crate::message::lists_view;
use crate::message::AmqpMessage;
use crate::message::AmqpMessageBody;
use crate::ordered_map::AmqpOrderedMap;
use crate::properties::AmqpMessageProperties;
use crate::value::clone_bytes;
use crate::value::clone_list;
use crate::value::clone_value;
use crate::value::lemma_list_value_view;
use crate::value::list_view;
use crate::value::AmqpValue;
use crate::value_codec::decode_value;
use crate::value_codec::enc_pairs;
use crate::value_codec::encode_list;
use crate::value_codec::encode_value;
use crate::value_codec::push_sized;
use crate::value_codec::TAG_BINARY;
use crate::value_codec::TAG_LIST;
use crate::value_codec::TAG_MAP;
use crate::wire::holds_at;
use crate::wire::push_be;
use vstd::prelude::*;

verus! {

/// The first byte of every descriptor.
pub const DESCRIBED: u8 = 0x00;

/// The second byte of every descriptor.
pub const SMALL_ULONG: u8 = 0x53;

/// The code of the header section.
pub const SECTION_HEADER: u8 = 0x70;

/// The code of the delivery annotations section.
pub const SECTION_DELIVERY_ANNOTATIONS: u8 = 0x71;

/// The code of the message annotations section.
pub const SECTION_MESSAGE_ANNOTATIONS: u8 = 0x72;

/// The code of the properties section.
pub const SECTION_PROPERTIES: u8 = 0x73;

/// The code of the application properties section.
pub const SECTION_APPLICATION_PROPERTIES: u8 = 0x74;

/// The code of a section that holds one binary chunk of the body.
pub const SECTION_DATA: u8 = 0x75;

/// The code of a section that holds one list chunk of the body.
pub const SECTION_SEQUENCE: u8 = 0x76;

/// The code of the section that holds the value of a value body.
pub const SECTION_VALUE: u8 = 0x77;

/// The code of the footer section.
pub const SECTION_FOOTER: u8 = 0x78;

/// A section as it stands on the wire: which section it is, and its value.
pub type Section = (u8, ValueModel);

/// The encoding of one section.
pub open spec fn enc_section(s: Section) -> Seq<u8> {
    seq![DESCRIBED, SMALL_ULONG, s.0] + enc_value(s.1)
}

/// The encodings of sections, one after the other.
pub open spec fn enc_all(s: Seq<Section>) -> Seq<u8>
    decreases s.len(),
{
    if s.len() == 0 {
        Seq::empty()
    } else {
        enc_section(s[0]) + enc_all(s.drop_first())
    }
}

/// No section, or the one section with this code and value.
pub open spec fn opt_section(code: u8, o: Option<ValueModel>) -> Seq<Section> {
    match o {
        Some(v) => seq![(code, v)],
        None => Seq::empty(),
    }
}

/// The same values, each as a section with this code.
pub open spec fn run(code: u8, values: Seq<ValueModel>) -> Seq<Section> {
    Seq::new(values.len(), |i: int| (code, values[i]))
}

/// The value of a header that may be absent.
pub open spec fn opt_header_value(o: Option<AmqpMessageHeader>) -> Option<ValueModel> {
    match o {
        Some(h) => Some(header_value(h)),
        None => None,
    }
}

/// The value of properties that may be absent.
pub open spec fn opt_properties_value(o: Option<PropertiesModel>) -> Option<ValueModel> {
    match o {
        Some(p) => Some(properties_value(p)),
        None => None,
    }
}

/// The value of a section map that may be absent.
pub open spec fn opt_map_value<K: SectionKey>(o: Option<Seq<(K::V, ValueModel)>>) -> Option<
    ValueModel,
> {
    match o {
        Some(entries) => Some(section_value::<K>(entries)),
        None => None,
    }
}

/// Binary chunks as values.
pub open spec fn chunk_values(chunks: Seq<Seq<u8>>) -> Seq<ValueModel> {
    Seq::new(chunks.len(), |i: int| ValueModel::Binary(chunks[i]))
}

/// List chunks as values.
pub open spec fn list_values(lists: Seq<Seq<ValueModel>>) -> Seq<ValueModel> {
    Seq::new(lists.len(), |i: int| ValueModel::List(lists[i]))
}

/// The sections of a body.
pub open spec fn body_sections(b: BodyModel) -> Seq<Section> {
    match b {
        BodyModel::Empty => Seq::empty(),
        BodyModel::Binary(chunks) => run(SECTION_DATA, chunk_values(chunks)),
        BodyModel::Sequence(lists) => run(SECTION_SEQUENCE, list_values(lists)),
        BodyModel::Value(v) => seq![(SECTION_VALUE, v)],
    }
}

/// What follows the application properties: the body and the footer.
pub open spec fn sections_from_body(m: MessageModel) -> Seq<Section> {
    body_sections(m.body) + opt_section(
        SECTION_FOOTER,
        opt_map_value::<AmqpAnnotationKey>(m.footer),
    )
}

/// What follows the message annotations.
pub open spec fn sections_from_properties(m: MessageModel) -> Seq<Section> {
    opt_section(SECTION_PROPERTIES, opt_properties_value(m.properties)) + (opt_section(
        SECTION_APPLICATION_PROPERTIES,
        opt_map_value::<String>(m.application_properties),
    ) + sections_from_body(m))
}

/// The sections of a message, in the order in which they are written.
pub open spec fn message_sections(m: MessageModel) -> Seq<Section> {
    opt_section(SECTION_HEADER, opt_header_value(m.header)) + (opt_section(
        SECTION_DELIVERY_ANNOTATIONS,
        opt_map_value::<AmqpAnnotationKey>(m.delivery_annotations),
    ) + (opt_section(
        SECTION_MESSAGE_ANNOTATIONS,
        opt_map_value::<AmqpAnnotationKey>(m.message_annotations),
    ) + sections_from_properties(m)))
}

/// The encoding of a message.
pub open spec fn enc_message(m: MessageModel) -> Seq<u8> {
    enc_all(message_sections(m))
}

/// Every length inside the message is below 2^64. This is true of every
/// message in memory; a model can be larger.
pub open spec fn message_fits(m: MessageModel) -> bool {
    sections_fit(message_sections(m))
}

/// The value of every section fits.
pub open spec fn sections_fit(s: Seq<Section>) -> bool {
    forall|i: int| 0 <= i < s.len() ==> value_fits((#[trigger] s[i]).1)
}

/// The value of every section is well formed.
pub open spec fn sections_wf(s: Seq<Section>) -> bool {
    forall|i: int| 0 <= i < s.len() ==> value_wf((#[trigger] s[i]).1)
}

/// The section whose encoding starts at `pos`, and where that encoding ends.
pub open spec fn parse_section(b: Seq<u8>, pos: int) -> Option<(Section, int)> {
    if 0 <= pos && pos + 3 <= b.len() && b[pos] == DESCRIBED && b[pos + 1] == SMALL_ULONG {
        match parse_value(b, pos + 3) {
            Some((v, end)) => Some(((b[pos + 2], v), end)),
            None => None,
        }
    } else {
        None
    }
}

/// The sections whose encodings fill `b` from `pos` to its end.
pub open spec fn parse_all(b: Seq<u8>, pos: int) -> Option<Seq<Section>>
    decreases b.len() - pos,
{
    if pos < 0 || pos > b.len() {
        None
    } else if pos == b.len() {
        Some(Seq::empty())
    } else {
        match parse_section(b, pos) {
            Some((s, end)) => if end <= pos || end > b.len() {
                None
            } else {
                match parse_all(b, end) {
                    Some(rest) => Some(seq![s] + rest),
                    None => None,
                }
            },
            None => None,
        }
    }
}

/// Takes the first section where it has this code.
pub open spec fn take_opt(s: Seq<Section>, code: u8) -> (Option<ValueModel>, Seq<Section>) {
    if s.len() > 0 && s[0].0 == code {
        (Some(s[0].1), s.drop_first())
    } else {
        (None, s)
    }
}

/// Takes the sections at the front that have this code.
pub open spec fn take_run(s: Seq<Section>, code: u8) -> (Seq<ValueModel>, Seq<Section>)
    decreases s.len(),
{
    if s.len() > 0 && s[0].0 == code {
        let (values, rest) = take_run(s.drop_first(), code);
        (seq![s[0].1] + values, rest)
    } else {
        (Seq::empty(), s)
    }
}

/// The binary body whose chunks these values are, where all are byte strings.
pub open spec fn binary_body(values: Seq<ValueModel>) -> Option<BodyModel> {
    if forall|i: int| 0 <= i < values.len() ==> (#[trigger] values[i]) is Binary {
        Some(BodyModel::Binary(Seq::new(values.len(), |i: int| values[i]->Binary_0)))
    } else {
        None
    }
}

/// The sequence body whose chunks these values are, where all are lists.
pub open spec fn sequence_body(values: Seq<ValueModel>) -> Option<BodyModel> {
    if forall|i: int| 0 <= i < values.len() ==> (#[trigger] values[i]) is List {
        Some(BodyModel::Sequence(Seq::new(values.len(), |i: int| values[i]->List_0)))
    } else {
        None
    }
}

/// Takes the sections of the body from the front. The body is absent from the
/// result where a chunk is not of the kind that its section calls for.
pub open spec fn take_body(s: Seq<Section>) -> (Option<BodyModel>, Seq<Section>) {
    if s.len() > 0 && s[0].0 == SECTION_DATA {
        let (values, rest) = take_run(s, SECTION_DATA);
        (binary_body(values), rest)
    } else if s.len() > 0 && s[0].0 == SECTION_SEQUENCE {
        let (values, rest) = take_run(s, SECTION_SEQUENCE);
        (sequence_body(values), rest)
    } else if s.len() > 0 && s[0].0 == SECTION_VALUE {
        (Some(BodyModel::Value(s[0].1)), s.drop_first())
    } else {
        (Some(BodyModel::Empty), s)
    }
}

/// The header that a section value stands for; `None` where the section is
/// there and its value is no header.
pub open spec fn opt_value_header(o: Option<ValueModel>) -> Option<Option<AmqpMessageHeader>> {
    match o {
        Some(v) => match value_header(v) {
            Some(h) => Some(Some(h)),
            None => None,
        },
        None => Some(None),
    }
}

/// The properties that a section value stands for; `None` where the section
/// is there and its value is no properties.
pub open spec fn opt_value_properties(o: Option<ValueModel>) -> Option<Option<PropertiesModel>> {
    match o {
        Some(v) => match value_properties(v) {
            Some(p) => Some(Some(p)),
            None => None,
        },
        None => Some(None),
    }
}

/// The section map that a section value stands for; `None` where the section
/// is there and its value is no such map.
pub open spec fn opt_value_map<K: SectionKey>(o: Option<ValueModel>) -> Option<
    Option<Seq<(K::V, ValueModel)>>,
> {
    match o {
        Some(v) => match value_section::<K>(v) {
            Some(entries) => Some(Some(entries)),
            None => None,
        },
        None => Some(None),
    }
}

/// The message that these sections make up: each section at most once and in
/// order, the body of one kind, every value of the shape that its section
/// calls for, and nothing left over.
pub open spec fn assemble(s: Seq<Section>) -> Option<MessageModel> {
    let (header, s1) = take_opt(s, SECTION_HEADER);
    let (delivery, s2) = take_opt(s1, SECTION_DELIVERY_ANNOTATIONS);
    let (annotations, s3) = take_opt(s2, SECTION_MESSAGE_ANNOTATIONS);
    let (properties, s4) = take_opt(s3, SECTION_PROPERTIES);
    let (application, s5) = take_opt(s4, SECTION_APPLICATION_PROPERTIES);
    let (body, s6) = take_body(s5);
    let (footer, s7) = take_opt(s6, SECTION_FOOTER);
    if s7.len() == 0 && opt_value_header(header) is Some && opt_value_map::<AmqpAnnotationKey>(
        delivery,
    ) is Some && opt_value_map::<AmqpAnnotationKey>(annotations) is Some && opt_value_properties(
        properties,
    ) is Some && opt_value_map::<String>(application) is Some && body is Some && opt_value_map::<
        AmqpAnnotationKey,
    >(footer) is Some {
        Some(
            MessageModel {
                header: opt_value_header(header)->0,
                delivery_annotations: opt_value_map::<AmqpAnnotationKey>(delivery)->0,
                message_annotations: opt_value_map::<AmqpAnnotationKey>(annotations)->0,
                properties: opt_value_properties(properties)->0,
                application_properties: opt_value_map::<String>(application)->0,
                body: body->0,
                footer: opt_value_map::<AmqpAnnotationKey>(footer)->0,
            },
        )
    } else {
        None
    }
}

/// The message that the bytes encode; `None` where they encode none.
pub open spec fn parse_message(b: Seq<u8>) -> Option<MessageModel> {
    match parse_all(b, 0) {
        Some(s) => assemble(s),
        None => None,
    }
}

/// A section stands at `pos` exactly where its three descriptor bytes stand
/// there and its value behind them.
pub proof fn lemma_section_at(b: Seq<u8>, pos: int, s: Section)
    ensures
        holds_at(b, pos, enc_section(s)) <==> 0 <= pos && pos + 3 <= b.len() && b[pos] == DESCRIBED
            && b[pos + 1] == SMALL_ULONG && b[pos + 2] == s.0 && holds_at(
            b,
            pos + 3,
            enc_value(s.1),
        ),
        enc_section(s).len() == 3 + enc_value(s.1).len(),
{
    let d = seq![DESCRIBED, SMALL_ULONG, s.0];
    crate::wire::lemma_holds_at_concat(b, pos, d, enc_value(s.1));
    if holds_at(b, pos, d) {
        let r = b.subrange(pos, pos + 3);
        assert(r[0] == d[0] && r[1] == d[1] && r[2] == d[2]);
    }
    if 0 <= pos && pos + 3 <= b.len() && b[pos] == DESCRIBED && b[pos + 1] == SMALL_ULONG && b[pos
        + 2] == s.0 {
        assert(b.subrange(pos, pos + 3) =~= d);
    }
}

/// What is left of well-formed sections that fit, after the first, is well
/// formed and fits.
pub proof fn lemma_sections_drop_first(s: Seq<Section>)
    requires
        s.len() > 0,
    ensures
        sections_wf(s) ==> sections_wf(s.drop_first()) && value_wf(s[0].1),
        sections_fit(s) ==> sections_fit(s.drop_first()) && value_fits(s[0].1),
{
    let r = s.drop_first();
    if sections_wf(s) {
        assert forall|i: int| 0 <= i < r.len() implies value_wf((#[trigger] r[i]).1) by {
            assert(r[i] == s[i + 1]);
        }
    }
    if sections_fit(s) {
        assert forall|i: int| 0 <= i < r.len() implies value_fits((#[trigger] r[i]).1) by {
            assert(r[i] == s[i + 1]);
        }
    }
}

/// Sections are well formed and fit where their parts do.
pub proof fn lemma_sections_concat(x: Seq<Section>, y: Seq<Section>)
    ensures
        sections_wf(x + y) <==> sections_wf(x) && sections_wf(y),
        sections_fit(x + y) <==> sections_fit(x) && sections_fit(y),
{
    let s = x + y;
    if sections_wf(s) {
        assert forall|i: int| 0 <= i < x.len() implies value_wf((#[trigger] x[i]).1) by {
            assert(s[i] == x[i]);
        }
        assert forall|i: int| 0 <= i < y.len() implies value_wf((#[trigger] y[i]).1) by {
            assert(s[x.len() + i] == y[i]);
        }
    }
    if sections_fit(s) {
        assert forall|i: int| 0 <= i < x.len() implies value_fits((#[trigger] x[i]).1) by {
            assert(s[i] == x[i]);
        }
        assert forall|i: int| 0 <= i < y.len() implies value_fits((#[trigger] y[i]).1) by {
            assert(s[x.len() + i] == y[i]);
        }
    }
}

/// Reading where well-formed sections were written, up to the end of the
/// bytes, gives those sections.
pub proof fn lemma_parse_all_enc(s: Seq<Section>, b: Seq<u8>, pos: int)
    requires
        sections_wf(s),
        sections_fit(s),
        holds_at(b, pos, enc_all(s)),
        pos + enc_all(s).len() == b.len(),
    ensures
        parse_all(b, pos) == Some(s),
    decreases s.len(),
{
    if s.len() == 0 {
        assert(s =~= Seq::<Section>::empty());
    } else {
        let head = enc_section(s[0]);
        let tail = enc_all(s.drop_first());
        crate::wire::lemma_holds_at_concat(b, pos, head, tail);
        lemma_section_at(b, pos, s[0]);
        lemma_sections_drop_first(s);
        crate::value_codec::lemma_parse_enc_value(s[0].1, b, pos + 3);
        lemma_parse_all_enc(s.drop_first(), b, pos + head.len());
        assert(seq![s[0]] + s.drop_first() =~= s);
    }
}

/// Whatever sections are read stand there exactly as they would be written,
/// up to the end of the bytes, and are well formed and fit.
pub proof fn lemma_enc_parse_all(b: Seq<u8>, pos: int, s: Seq<Section>)
    requires
        parse_all(b, pos) == Some(s),
    ensures
        sections_wf(s),
        sections_fit(s),
        holds_at(b, pos, enc_all(s)),
        pos + enc_all(s).len() == b.len(),
    decreases b.len() - pos,
{
    if pos == b.len() {
        assert(b.subrange(pos, pos) =~= Seq::<u8>::empty());
    } else {
        let (x, end) = parse_section(b, pos)->0;
        let rest = parse_all(b, end)->0;
        crate::value_codec::lemma_enc_parse_value(b, pos + 3, x.1, end);
        lemma_section_at(b, pos, x);
        lemma_enc_parse_all(b, end, rest);
        assert(s[0] == x);
        assert(s.drop_first() =~= rest);
        crate::wire::lemma_holds_at_concat(b, pos, enc_section(x), enc_all(rest));
        lemma_sections_concat(seq![x], rest);
    }
}

/// Every section has a code above `c`.
pub open spec fn codes_above(s: Seq<Section>, c: u8) -> bool {
    forall|i: int| 0 <= i < s.len() ==> (#[trigger] s[i]).0 > c
}

/// Sections written one after the other have codes above `c` where both
/// parts have.
pub proof fn lemma_codes_above_concat(x: Seq<Section>, y: Seq<Section>, c: u8)
    requires
        codes_above(x, c),
        codes_above(y, c),
    ensures
        codes_above(x + y, c),
{
    let s = x + y;
    assert forall|i: int| 0 <= i < s.len() implies (#[trigger] s[i]).0 > c by {
        if i < x.len() {
            assert(s[i] == x[i]);
        } else {
            assert(s[i] == y[i - x.len()]);
        }
    }
}

/// A section that may be absent, written in front of sections that do not
/// start with its code, is taken back as it was.
pub proof fn lemma_take_opt_front(code: u8, x: Option<ValueModel>, rest: Seq<Section>)
    requires
        codes_above(rest, code),
    ensures
        take_opt(opt_section(code, x) + rest, code) == (x, rest),
{
    let s = opt_section(code, x) + rest;
    match x {
        Some(v) => {
            assert(s[0] == (code, v));
            assert(s.drop_first() =~= rest);
        },
        None => {
            assert(s =~= rest);
            if rest.len() > 0 {
                assert(rest[0].0 > code);
            }
        },
    }
}

/// A run of sections with one code, written in front of sections that do not
/// start with that code, is taken back as it was.
pub proof fn lemma_take_run_front(code: u8, values: Seq<ValueModel>, rest: Seq<Section>)
    requires
        codes_above(rest, code),
    ensures
        take_run(run(code, values) + rest, code) == (values, rest),
    decreases values.len(),
{
    let s = run(code, values) + rest;
    if values.len() == 0 {
        assert(s =~= rest);
        if rest.len() > 0 {
            assert(rest[0].0 > code);
        }
        assert(values =~= Seq::<ValueModel>::empty());
    } else {
        assert(s[0] == (code, values[0]));
        assert(s.drop_first() =~= run(code, values.drop_first()) + rest);
        lemma_take_run_front(code, values.drop_first(), rest);
        assert(seq![values[0]] + values.drop_first() =~= values);
    }
}

/// What was taken from the front, written in front of what was left, is what
/// there was.
pub proof fn lemma_take_opt_back(s: Seq<Section>, code: u8)
    ensures
        s == opt_section(code, take_opt(s, code).0) + take_opt(s, code).1,
        sections_wf(s) ==> sections_wf(take_opt(s, code).1) && (take_opt(s, code).0 is Some
            ==> value_wf(take_opt(s, code).0->0)),
{
    let (x, r) = take_opt(s, code);
    assert(s =~= opt_section(code, x) + r);
    if x is Some {
        lemma_sections_drop_first(s);
    }
}

/// The run that was taken from the front, written in front of what was left,
/// is what there was.
pub proof fn lemma_take_run_back(s: Seq<Section>, code: u8)
    ensures
        s == run(code, take_run(s, code).0) + take_run(s, code).1,
        s.len() > 0 && s[0].0 == code ==> take_run(s, code).0.len() > 0,
        sections_wf(s) ==> sections_wf(take_run(s, code).1) && forall|i: int|
            0 <= i < take_run(s, code).0.len() ==> value_wf(#[trigger] take_run(s, code).0[i]),
    decreases s.len(),
{
    let (values, r) = take_run(s, code);
    if s.len() > 0 && s[0].0 == code {
        let t = s.drop_first();
        lemma_take_run_back(t, code);
        let (tail, _) = take_run(t, code);
        assert(values == seq![s[0].1] + tail);
        assert(s =~= run(code, values) + r) by {
            assert(t == run(code, tail) + r);
            assert forall|i: int| 0 <= i < s.len() implies s[i] == (run(code, values) + r)[i] by {
                if i > 0 {
                    assert(s[i] == t[i - 1]);
                }
            }
        }
        lemma_sections_drop_first(s);
        if sections_wf(s) {
            assert forall|i: int| 0 <= i < values.len() implies value_wf(
                #[trigger] values[i],
            ) by {
                if i > 0 {
                    assert(values[i] == tail[i - 1]);
                }
            }
        }
    } else {
        assert(s =~= run(code, values) + r);
    }
}

/// The sections of a well-formed message have well-formed values.
pub proof fn lemma_message_sections_wf(m: MessageModel)
    requires
        m.wf(),
    ensures
        sections_wf(message_sections(m)),
{
    let h = opt_section(SECTION_HEADER, opt_header_value(m.header));
    let da = opt_section(
        SECTION_DELIVERY_ANNOTATIONS,
        opt_map_value::<AmqpAnnotationKey>(m.delivery_annotations),
    );
    let ma = opt_section(
        SECTION_MESSAGE_ANNOTATIONS,
        opt_map_value::<AmqpAnnotationKey>(m.message_annotations),
    );
    let pr = opt_section(SECTION_PROPERTIES, opt_properties_value(m.properties));
    let ap = opt_section(
        SECTION_APPLICATION_PROPERTIES,
        opt_map_value::<String>(m.application_properties),
    );
    let body = body_sections(m.body);
    let ft = opt_section(SECTION_FOOTER, opt_map_value::<AmqpAnnotationKey>(m.footer));
    if m.header is Some {
        crate::header::lemma_header_of_value(m.header->0);
    }
    if m.delivery_annotations is Some {
        crate::annotations::lemma_section_of_value::<AmqpAnnotationKey>(m.delivery_annotations->0);
    }
    if m.message_annotations is Some {
        crate::annotations::lemma_section_of_value::<AmqpAnnotationKey>(m.message_annotations->0);
    }
    if m.properties is Some {
        crate::properties::lemma_properties_value_wf(m.properties->0);
    }
    if m.application_properties is Some {
        crate::annotations::lemma_section_of_value::<String>(m.application_properties->0);
    }
    if m.footer is Some {
        crate::annotations::lemma_section_of_value::<AmqpAnnotationKey>(m.footer->0);
    }
    assert(sections_wf(h));
    assert(sections_wf(da));
    assert(sections_wf(ma));
    assert(sections_wf(pr));
    assert(sections_wf(ap));
    assert(sections_wf(ft));
    assert(sections_wf(body)) by {
        match m.body {
            BodyModel::Sequence(lists) => {
                assert forall|i: int| 0 <= i < body.len() implies value_wf(
                    (#[trigger] body[i]).1,
                ) by {
                    assert(list_wf(lists[i]));
                }
            },
            _ => {},
        }
    }
    lemma_sections_concat(body, ft);
    lemma_sections_concat(ap, body + ft);
    lemma_sections_concat(pr, ap + (body + ft));
    lemma_sections_concat(ma, pr + (ap + (body + ft)));
    lemma_sections_concat(da, ma + (pr + (ap + (body + ft))));
    lemma_sections_concat(h, da + (ma + (pr + (ap + (body + ft)))));
}

/// The sections of a well-formed body, written in front of a footer, are
/// taken back as that body.
pub proof fn lemma_take_body_front(body: BodyModel, ft: Seq<Section>)
    requires
        body.wf(),
        codes_above(ft, SECTION_VALUE),
    ensures
        take_body(body_sections(body) + ft) == (Some(body), ft),
        codes_above(body_sections(body) + ft, SECTION_APPLICATION_PROPERTIES),
{
    let r5 = body_sections(body) + ft;
    assert(codes_above(body_sections(body), SECTION_APPLICATION_PROPERTIES));
    lemma_codes_above_concat(body_sections(body), ft, SECTION_APPLICATION_PROPERTIES);
    match body {
        BodyModel::Empty => {
            assert(r5 =~= ft);
            if ft.len() > 0 {
                assert(ft[0].0 > SECTION_VALUE);
            }
        },
        BodyModel::Value(v) => {
            assert(r5[0] == (SECTION_VALUE, v));
            assert(r5.drop_first() =~= ft);
        },
        BodyModel::Binary(chunks) => {
            let values = chunk_values(chunks);
            assert(r5[0] == (SECTION_DATA, values[0]));
            lemma_take_run_front(SECTION_DATA, values, ft);
            assert(binary_body(values)->0->Binary_0 =~= chunks);
        },
        BodyModel::Sequence(lists) => {
            let values = list_values(lists);
            assert(r5[0] == (SECTION_SEQUENCE, values[0]));
            lemma_take_run_front(SECTION_SEQUENCE, values, ft);
            assert(sequence_body(values)->0->Sequence_0 =~= lists);
        },
    }
}

/// The value of a section stands for the section.
pub proof fn lemma_section_values(m: MessageModel)
    ensures
        opt_value_header(opt_header_value(m.header)) == Some(m.header),
        opt_value_map::<AmqpAnnotationKey>(
            opt_map_value::<AmqpAnnotationKey>(m.delivery_annotations),
        ) == Some(m.delivery_annotations),
        opt_value_map::<AmqpAnnotationKey>(
            opt_map_value::<AmqpAnnotationKey>(m.message_annotations),
        ) == Some(m.message_annotations),
        opt_value_properties(opt_properties_value(m.properties)) == Some(m.properties),
        opt_value_map::<String>(opt_map_value::<String>(m.application_properties)) == Some(
            m.application_properties,
        ),
        opt_value_map::<AmqpAnnotationKey>(opt_map_value::<AmqpAnnotationKey>(m.footer)) == Some(
            m.footer,
        ),
{
    if m.header is Some {
        crate::header::lemma_header_of_value(m.header->0);
    }
    if m.delivery_annotations is Some {
        crate::annotations::lemma_section_of_value::<AmqpAnnotationKey>(m.delivery_annotations->0);
    }
    if m.message_annotations is Some {
        crate::annotations::lemma_section_of_value::<AmqpAnnotationKey>(m.message_annotations->0);
    }
    if m.properties is Some {
        crate::properties::lemma_properties_of_value(m.properties->0);
    }
    if m.application_properties is Some {
        crate::annotations::lemma_section_of_value::<String>(m.application_properties->0);
    }
    if m.footer is Some {
        crate::annotations::lemma_section_of_value::<AmqpAnnotationKey>(m.footer->0);
    }
}

/// The sections of a well-formed message are taken back one by one, and
/// nothing is left over.
pub proof fn lemma_take_message_sections(m: MessageModel)
    requires
        m.wf(),
    ensures
        ({
            let (header, s1) = take_opt(message_sections(m), SECTION_HEADER);
            let (delivery, s2) = take_opt(s1, SECTION_DELIVERY_ANNOTATIONS);
            let (annotations, s3) = take_opt(s2, SECTION_MESSAGE_ANNOTATIONS);
            let (properties, s4) = take_opt(s3, SECTION_PROPERTIES);
            let (application, s5) = take_opt(s4, SECTION_APPLICATION_PROPERTIES);
            let (body, s6) = take_body(s5);
            let (footer, s7) = take_opt(s6, SECTION_FOOTER);
            &&& header == opt_header_value(m.header)
            &&& delivery == opt_map_value::<AmqpAnnotationKey>(m.delivery_annotations)
            &&& annotations == opt_map_value::<AmqpAnnotationKey>(m.message_annotations)
            &&& properties == opt_properties_value(m.properties)
            &&& application == opt_map_value::<String>(m.application_properties)
            &&& body == Some(m.body)
            &&& footer == opt_map_value::<AmqpAnnotationKey>(m.footer)
            &&& s7.len() == 0
        }),
{
    let hv = opt_header_value(m.header);
    let dv = opt_map_value::<AmqpAnnotationKey>(m.delivery_annotations);
    let mv = opt_map_value::<AmqpAnnotationKey>(m.message_annotations);
    let pv = opt_properties_value(m.properties);
    let av = opt_map_value::<String>(m.application_properties);
    let fv = opt_map_value::<AmqpAnnotationKey>(m.footer);
    let ft = opt_section(SECTION_FOOTER, fv);
    let r5 = body_sections(m.body) + ft;
    let r4 = opt_section(SECTION_APPLICATION_PROPERTIES, av) + r5;
    let r3 = opt_section(SECTION_PROPERTIES, pv) + r4;
    let r2 = opt_section(SECTION_MESSAGE_ANNOTATIONS, mv) + r3;
    let r1 = opt_section(SECTION_DELIVERY_ANNOTATIONS, dv) + r2;
    let none = Seq::<Section>::empty();

    assert(codes_above(ft, SECTION_VALUE));
    lemma_take_body_front(m.body, ft);
    lemma_codes_above_concat(
        opt_section(SECTION_APPLICATION_PROPERTIES, av),
        r5,
        SECTION_PROPERTIES,
    );
    lemma_codes_above_concat(opt_section(SECTION_PROPERTIES, pv), r4, SECTION_MESSAGE_ANNOTATIONS);
    lemma_codes_above_concat(
        opt_section(SECTION_MESSAGE_ANNOTATIONS, mv),
        r3,
        SECTION_DELIVERY_ANNOTATIONS,
    );
    lemma_codes_above_concat(opt_section(SECTION_DELIVERY_ANNOTATIONS, dv), r2, SECTION_HEADER);

    lemma_take_opt_front(SECTION_HEADER, hv, r1);
    lemma_take_opt_front(SECTION_DELIVERY_ANNOTATIONS, dv, r2);
    lemma_take_opt_front(SECTION_MESSAGE_ANNOTATIONS, mv, r3);
    lemma_take_opt_front(SECTION_PROPERTIES, pv, r4);
    lemma_take_opt_front(SECTION_APPLICATION_PROPERTIES, av, r5);
    assert(ft + none =~= ft);
    lemma_take_opt_front(SECTION_FOOTER, fv, none);
}

/// The sections of a well-formed message make up that message.
pub proof fn lemma_assemble_sections(m: MessageModel)
    requires
        m.wf(),
    ensures
        assemble(message_sections(m)) == Some(m),
{
    lemma_take_message_sections(m);
    lemma_section_values(m);
}

/// Sections that make up a message are the sections of that message, and the
/// message is well formed where their values are.
pub proof fn lemma_sections_assemble(s: Seq<Section>, m: MessageModel)
    requires
        assemble(s) == Some(m),
    ensures
        message_sections(m) == s,
        sections_wf(s) ==> m.wf(),
{
    let (header, s1) = take_opt(s, SECTION_HEADER);
    let (delivery, s2) = take_opt(s1, SECTION_DELIVERY_ANNOTATIONS);
    let (annotations, s3) = take_opt(s2, SECTION_MESSAGE_ANNOTATIONS);
    let (properties, s4) = take_opt(s3, SECTION_PROPERTIES);
    let (application, s5) = take_opt(s4, SECTION_APPLICATION_PROPERTIES);
    let (body, s6) = take_body(s5);
    let (footer, s7) = take_opt(s6, SECTION_FOOTER);
    lemma_take_opt_back(s, SECTION_HEADER);
    lemma_take_opt_back(s1, SECTION_DELIVERY_ANNOTATIONS);
    lemma_take_opt_back(s2, SECTION_MESSAGE_ANNOTATIONS);
    lemma_take_opt_back(s3, SECTION_PROPERTIES);
    lemma_take_opt_back(s4, SECTION_APPLICATION_PROPERTIES);
    lemma_take_opt_back(s6, SECTION_FOOTER);
    lemma_take_run_back(s5, SECTION_DATA);
    lemma_take_run_back(s5, SECTION_SEQUENCE);

    if header is Some {
        crate::header::lemma_value_of_header(header->0);
    }
    if delivery is Some {
        crate::annotations::lemma_value_of_section::<AmqpAnnotationKey>(delivery->0);
    }
    if annotations is Some {
        crate::annotations::lemma_value_of_section::<AmqpAnnotationKey>(annotations->0);
    }
    if properties is Some {
        crate::properties::lemma_value_of_properties(properties->0);
    }
    if application is Some {
        crate::annotations::lemma_value_of_section::<String>(application->0);
    }
    if footer is Some {
        crate::annotations::lemma_value_of_section::<AmqpAnnotationKey>(footer->0);
    }
    assert(opt_section(SECTION_HEADER, opt_header_value(m.header)) == opt_section(
        SECTION_HEADER,
        header,
    ));
    assert(opt_section(
        SECTION_DELIVERY_ANNOTATIONS,
        opt_map_value::<AmqpAnnotationKey>(m.delivery_annotations),
    ) == opt_section(SECTION_DELIVERY_ANNOTATIONS, delivery));
    assert(opt_section(
        SECTION_MESSAGE_ANNOTATIONS,
        opt_map_value::<AmqpAnnotationKey>(m.message_annotations),
    ) == opt_section(SECTION_MESSAGE_ANNOTATIONS, annotations));
    assert(opt_section(SECTION_PROPERTIES, opt_properties_value(m.properties)) == opt_section(
        SECTION_PROPERTIES,
        properties,
    ));
    assert(opt_section(
        SECTION_APPLICATION_PROPERTIES,
        opt_map_value::<String>(m.application_properties),
    ) == opt_section(SECTION_APPLICATION_PROPERTIES, application));
    assert(opt_section(SECTION_FOOTER, opt_map_value::<AmqpAnnotationKey>(m.footer))
        == opt_section(SECTION_FOOTER, footer));
    assert(s7 =~= Seq::<Section>::empty());
    assert(s6 =~= opt_section(SECTION_FOOTER, footer));
    assert(s5 == body_sections(m.body) + s6 && (sections_wf(s5) ==> m.body.wf() && sections_wf(
        s6,
    ))) by {
        if s5.len() > 0 && s5[0].0 == SECTION_DATA {
            let (values, _) = take_run(s5, SECTION_DATA);
            let chunks = m.body->Binary_0;
            assert(chunk_values(chunks) =~= values);
        } else if s5.len() > 0 && s5[0].0 == SECTION_SEQUENCE {
            let (values, _) = take_run(s5, SECTION_SEQUENCE);
            let lists = m.body->Sequence_0;
            assert(list_values(lists) =~= values);
            if sections_wf(s5) {
                assert forall|i: int| 0 <= i < lists.len() implies list_wf(
                    #[trigger] lists[i],
                ) by {
                    assert(value_wf(values[i]));
                }
            }
        } else if s5.len() > 0 && s5[0].0 == SECTION_VALUE {
            assert(s5 =~= seq![s5[0]] + s5.drop_first());
            lemma_sections_drop_first(s5);
        } else {
            assert(s5 =~= body_sections(m.body) + s6);
        }
    }
}

/// Encoding a well-formed message and decoding the bytes gives the message
/// back, section by section: a section that was absent is absent, one that
/// was set to an empty map is an empty map, and the body has the variant and
/// the content that it had.
pub proof fn lemma_decode_encode(m: MessageModel)
    requires
        m.wf(),
        message_fits(m),
    ensures
        parse_message(enc_message(m)) == Some(m),
{
    let b = enc_message(m);
    assert(b.subrange(0, b.len() as int) =~= b);
    lemma_message_sections_wf(m);
    lemma_parse_all_enc(message_sections(m), b, 0);
    lemma_assemble_sections(m);
}

/// Whatever bytes decode to a message are the encoding of that message, and
/// the message is well formed: no two different runs of bytes decode to the
/// same message.
pub proof fn lemma_encode_decode(b: Seq<u8>, m: MessageModel)
    requires
        parse_message(b) == Some(m),
    ensures
        m.wf(),
        message_fits(m),
        enc_message(m) == b,
{
    let s = parse_all(b, 0)->0;
    lemma_enc_parse_all(b, 0, s);
    lemma_sections_assemble(s, m);
    assert(b.subrange(0, b.len() as int) =~= b);
}

/// Two well-formed messages with the same encoding are the same message.
pub proof fn lemma_enc_message_injective(x: MessageModel, y: MessageModel)
    requires
        x.wf(),
        message_fits(x),
        y.wf(),
        message_fits(y),
        enc_message(x) == enc_message(y),
    ensures
        x == y,
{
    lemma_decode_encode(x);
    lemma_decode_encode(y);
}

/// The empty message is written as no bytes at all, and no bytes decode to
/// the empty message.
pub proof fn lemma_empty_message()
    ensures
        MessageModel::empty().wf(),
        message_fits(MessageModel::empty()),
        enc_message(MessageModel::empty()) == Seq::<u8>::empty(),
        parse_message(Seq::<u8>::empty()) == Some(MessageModel::empty()),
{
    let m = MessageModel::empty();
    assert(message_sections(m) =~= Seq::<Section>::empty());
    lemma_decode_encode(m);
}

/// Sections written one after the other are written as their parts are.
pub proof fn lemma_enc_all_concat(x: Seq<Section>, y: Seq<Section>)
    ensures
        enc_all(x + y) == enc_all(x) + enc_all(y),
    decreases x.len(),
{
    if x.len() == 0 {
        assert(x + y =~= y);
        assert(enc_all(x) + enc_all(y) =~= enc_all(y));
    } else {
        let s = x + y;
        assert(s[0] == x[0]);
        assert(s.drop_first() =~= x.drop_first() + y);
        lemma_enc_all_concat(x.drop_first(), y);
        assert(enc_all(s) =~= enc_all(x) + enc_all(y));
    }
}

/// One section alone is written as that section.
pub proof fn lemma_enc_all_one(s: Section)
    ensures
        enc_all(seq![s]) == enc_section(s),
{
    let one = seq![s];
    let t = one.drop_first();
    assert(t.len() == 0);
    assert(enc_all(t) =~= Seq::<u8>::empty());
    assert(enc_all(one) == enc_section(one[0]) + enc_all(t));
    assert(enc_all(one) =~= enc_section(s));
}

/// No section is written as no bytes.
pub proof fn lemma_enc_all_none()
    ensures
        enc_all(Seq::<Section>::empty()) == Seq::<u8>::empty(),
{
}

/// One more section is written behind the ones before it.
pub proof fn lemma_enc_all_push(x: Seq<Section>, s: Section)
    ensures
        enc_all(x.push(s)) == enc_all(x) + enc_section(s),
        sections_fit(x) && value_fits(s.1) ==> sections_fit(x.push(s)),
{
    let one = seq![s];
    assert(x.push(s) =~= x + one);
    lemma_enc_all_concat(x, one);
    lemma_enc_all_one(s);
}

/// Appends the three bytes that announce a section.
pub fn push_descriptor(out: &mut Vec<u8>, code: u8)
    ensures
        final(out)@ == old(out)@ + seq![DESCRIBED, SMALL_ULONG, code],
{
    out.push(DESCRIBED);
    out.push(SMALL_ULONG);
    out.push(code);
    assert(out@ =~= old(out)@ + seq![DESCRIBED, SMALL_ULONG, code]);
}

/// Appends a section with the value `v`.
pub fn encode_value_section(code: u8, v: &AmqpValue, out: &mut Vec<u8>)
    ensures
        final(out)@ == old(out)@ + enc_section((code, v@)),
        value_fits(v@),
{
    push_descriptor(out, code);
    encode_value(v, out);
    assert(out@ =~= old(out)@ + enc_section((code, v@)));
}

/// Appends a section whose value is the map value of a section map. The
/// entries are written as they stand; nothing is copied.
pub fn encode_map_section<K: SectionKey>(
    code: u8,
    map: &AmqpOrderedMap<K, AmqpValue>,
    out: &mut Vec<u8>,
)
    ensures
        final(out)@ == old(out)@ + enc_section((code, section_value::<K>(map@))),
        value_fits(section_value::<K>(map@)),
{
    let ghost pairs = crate::annotations::value_pairs::<K>(map@);
    push_descriptor(out, code);
    out.push(TAG_MAP);
    push_be(out, map.len() as u64, 8);
    let ghost head = out@;
    let mut i: usize = 0;
    assert(out@ =~= head + enc_pairs(pairs, 0));
    while i < map.len()
        invariant
            i <= map@.len(),
            pairs == crate::annotations::value_pairs::<K>(map@),
            out@ == head + enc_pairs(pairs, i as nat),
            forall|j: int|
                0 <= j < i ==> value_fits((#[trigger] pairs[j]).0) && value_fits(pairs[j].1),
        decreases map@.len() - i,
    {
        let key = map.key_at(i).to_value();
        let ghost before = out@;
        encode_value(&key, out);
        encode_value(map.value_at(i), out);
        assert(out@ =~= before + (enc_value(pairs[i as int].0) + enc_value(pairs[i as int].1)));
        assert(out@ =~= head + enc_pairs(pairs, (i + 1) as nat));
        i = i + 1;
    }
    assert(crate::value::pairs_fits(pairs));
    assert(out@ =~= old(out)@ + enc_section((code, section_value::<K>(map@))));
}

/// Appends the sections of a body.
pub fn encode_body(body: &AmqpMessageBody, out: &mut Vec<u8>)
    ensures
        final(out)@ == old(out)@ + enc_all(body_sections(body@)),
        sections_fit(body_sections(body@)),
{
    let ghost all = body_sections(body@);
    let ghost none = Seq::<Section>::empty();
    match body {
        AmqpMessageBody::Empty => {
            assert(out@ =~= old(out)@ + enc_all(all));
        },
        AmqpMessageBody::Value(v) => {
            encode_value_section(SECTION_VALUE, v, out);
            proof {
                lemma_enc_all_push(none, (SECTION_VALUE, v@));
                assert(none.push((SECTION_VALUE, v@)) =~= all);
                assert(enc_all(none) + enc_section((SECTION_VALUE, v@)) =~= enc_section(
                    (SECTION_VALUE, v@),
                ));
            }
        },
        AmqpMessageBody::Binary(chunks) => {
            let mut i: usize = 0;
            assert(all.take(0) =~= none);
            assert(out@ =~= old(out)@ + enc_all(all.take(0)));
            while i < chunks.len()
                invariant
                    i <= chunks@.len(),
                    all == run(SECTION_DATA, chunk_values(chunks_view(chunks@))),
                    out@ == old(out)@ + enc_all(all.take(i as int)),
                    sections_fit(all.take(i as int)),
                decreases chunks@.len() - i,
            {
                let ghost before = out@;
                push_descriptor(out, SECTION_DATA);
                push_sized(out, TAG_BINARY, chunks[i].as_slice());
                proof {
                    let sec = all[i as int];
                    assert(out@ =~= before + enc_section(sec));
                    lemma_enc_all_push(all.take(i as int), sec);
                    assert(all.take(i as int).push(sec) =~= all.take(i + 1));
                }
                i = i + 1;
            }
            assert(all.take(chunks@.len() as int) =~= all);
        },
        AmqpMessageBody::Sequence(lists) => {
            let mut i: usize = 0;
            assert(all.take(0) =~= none);
            assert(out@ =~= old(out)@ + enc_all(all.take(0)));
            while i < lists.len()
                invariant
                    i <= lists@.len(),
                    all == run(SECTION_SEQUENCE, list_values(lists_view(lists@))),
                    out@ == old(out)@ + enc_all(all.take(i as int)),
                    sections_fit(all.take(i as int)),
                decreases lists@.len() - i,
            {
                let ghost before = out@;
                push_descriptor(out, SECTION_SEQUENCE);
                out.push(TAG_LIST);
                encode_list(&lists[i], out);
                proof {
                    let sec = all[i as int];
                    assert(out@ =~= before + enc_section(sec));
                    lemma_enc_all_push(all.take(i as int), sec);
                    assert(all.take(i as int).push(sec) =~= all.take(i + 1));
                }
                i = i + 1;
            }
            assert(all.take(lists@.len() as int) =~= all);
        },
    }
}

/// Appends the header section, where there is a header.
fn encode_opt_header(header: Option<&AmqpMessageHeader>, out: &mut Vec<u8>)
    ensures
        final(out)@ == old(out)@ + enc_all(
            opt_section(
                SECTION_HEADER,
                opt_header_value(
                    match header {
                        Some(h) => Some(*h),
                        None => None,
                    },
                ),
            ),
        ),
        sections_fit(
            opt_section(
                SECTION_HEADER,
                opt_header_value(
                    match header {
                        Some(h) => Some(*h),
                        None => None,
                    },
                ),
            ),
        ),
{
    match header {
        Some(h) => {
            let v = h.to_value();
            encode_value_section(SECTION_HEADER, &v, out);
            proof {
                lemma_enc_all_one((SECTION_HEADER, v@));
            }
        },
        None => {
            proof {
                lemma_enc_all_none();
            }
            assert(out@ =~= old(out)@ + Seq::<u8>::empty());
        },
    }
}

/// Appends the properties section, where there are properties.
fn encode_opt_properties(properties: Option<&AmqpMessageProperties>, out: &mut Vec<u8>)
    ensures
        final(out)@ == old(out)@ + enc_all(
            opt_section(
                SECTION_PROPERTIES,
                opt_properties_value(
                    match properties {
                        Some(p) => Some(p@),
                        None => None,
                    },
                ),
            ),
        ),
        sections_fit(
            opt_section(
                SECTION_PROPERTIES,
                opt_properties_value(
                    match properties {
                        Some(p) => Some(p@),
                        None => None,
                    },
                ),
            ),
        ),
{
    match properties {
        Some(p) => {
            let v = p.to_value();
            encode_value_section(SECTION_PROPERTIES, &v, out);
            proof {
                lemma_enc_all_one((SECTION_PROPERTIES, v@));
            }
        },
        None => {
            proof {
                lemma_enc_all_none();
            }
            assert(out@ =~= old(out)@ + Seq::<u8>::empty());
        },
    }
}

/// Appends the section of a section map, where there is a map.
fn encode_opt_map<K: SectionKey>(
    code: u8,
    map: Option<&AmqpOrderedMap<K, AmqpValue>>,
    out: &mut Vec<u8>,
)
    ensures
        final(out)@ == old(out)@ + enc_all(
            opt_section(
                code,
                opt_map_value::<K>(
                    match map {
                        Some(m) => Some(m@),
                        None => None,
                    },
                ),
            ),
        ),
        sections_fit(
            opt_section(
                code,
                opt_map_value::<K>(
                    match map {
                        Some(m) => Some(m@),
                        None => None,
                    },
                ),
            ),
        ),
{
    match map {
        Some(m) => {
            encode_map_section(code, m, out);
            proof {
                lemma_enc_all_one((code, section_value::<K>(m@)));
            }
        },
        None => {
            proof {
                lemma_enc_all_none();
            }
            assert(out@ =~= old(out)@ + Seq::<u8>::empty());
        },
    }
}

/// The header section of a message, where it has a header.
pub open spec fn header_part(m: MessageModel) -> Seq<Section> {
    opt_section(SECTION_HEADER, opt_header_value(m.header))
}

/// The delivery annotations section of a message, where it has them.
pub open spec fn delivery_part(m: MessageModel) -> Seq<Section> {
    opt_section(
        SECTION_DELIVERY_ANNOTATIONS,
        opt_map_value::<AmqpAnnotationKey>(m.delivery_annotations),
    )
}

/// The message annotations section of a message, where it has them.
pub open spec fn annotations_part(m: MessageModel) -> Seq<Section> {
    opt_section(
        SECTION_MESSAGE_ANNOTATIONS,
        opt_map_value::<AmqpAnnotationKey>(m.message_annotations),
    )
}

/// The properties section of a message, where it has properties.
pub open spec fn properties_part(m: MessageModel) -> Seq<Section> {
    opt_section(SECTION_PROPERTIES, opt_properties_value(m.properties))
}

/// The application properties section of a message, where it has them.
pub open spec fn application_part(m: MessageModel) -> Seq<Section> {
    opt_section(SECTION_APPLICATION_PROPERTIES, opt_map_value::<String>(m.application_properties))
}

/// The footer section of a message, where it has a footer.
pub open spec fn footer_part(m: MessageModel) -> Seq<Section> {
    opt_section(SECTION_FOOTER, opt_map_value::<AmqpAnnotationKey>(m.footer))
}

/// Bytes appended to the front part of a run stand in front of its back part.
pub proof fn lemma_bytes_assoc(x: Seq<u8>, y: Seq<u8>, z: Seq<u8>)
    ensures
        (x + y) + z == x + (y + z),
{
    assert((x + y) + z =~= x + (y + z));
}

/// Seven runs of sections, written one after the other, are written as each
/// of them is.
pub proof fn lemma_enc_all_seven(
    a0: Seq<Section>,
    a1: Seq<Section>,
    a2: Seq<Section>,
    a3: Seq<Section>,
    a4: Seq<Section>,
    a5: Seq<Section>,
    a6: Seq<Section>,
)
    ensures
        enc_all(a0 + (a1 + (a2 + (a3 + (a4 + (a5 + a6)))))) == enc_all(a0) + enc_all(a1) + enc_all(
            a2,
        ) + enc_all(a3) + enc_all(a4) + enc_all(a5) + enc_all(a6),
{
    let e0 = enc_all(a0);
    let e1 = enc_all(a1);
    let e2 = enc_all(a2);
    let e3 = enc_all(a3);
    let e4 = enc_all(a4);
    let e5 = enc_all(a5);
    let e6 = enc_all(a6);
    lemma_enc_all_concat(a5, a6);
    lemma_enc_all_concat(a4, a5 + a6);
    lemma_enc_all_concat(a3, a4 + (a5 + a6));
    lemma_enc_all_concat(a2, a3 + (a4 + (a5 + a6)));
    lemma_enc_all_concat(a1, a2 + (a3 + (a4 + (a5 + a6))));
    lemma_enc_all_concat(a0, a1 + (a2 + (a3 + (a4 + (a5 + a6)))));
    let t5 = e5 + e6;
    let t4 = e4 + t5;
    let t3 = e3 + t4;
    let t2 = e2 + t3;
    let t1 = e1 + t2;
    assert(enc_all(a0 + (a1 + (a2 + (a3 + (a4 + (a5 + a6)))))) == e0 + t1);
    lemma_bytes_assoc(e0, e1, t2);
    lemma_bytes_assoc(e0 + e1, e2, t3);
    lemma_bytes_assoc(e0 + e1 + e2, e3, t4);
    lemma_bytes_assoc(e0 + e1 + e2 + e3, e4, t5);
    lemma_bytes_assoc(e0 + e1 + e2 + e3 + e4, e5, e6);
}

/// A message is written part by part.
pub proof fn lemma_enc_message_parts(m: MessageModel)
    ensures
        enc_message(m) == enc_all(header_part(m)) + enc_all(delivery_part(m)) + enc_all(
            annotations_part(m),
        ) + enc_all(properties_part(m)) + enc_all(application_part(m)) + enc_all(
            body_sections(m.body),
        ) + enc_all(footer_part(m)),
{
    lemma_enc_all_seven(
        header_part(m),
        delivery_part(m),
        annotations_part(m),
        properties_part(m),
        application_part(m),
        body_sections(m.body),
        footer_part(m),
    );
}

/// A message fits exactly where each of its parts fits.
pub proof fn lemma_message_fits_parts(m: MessageModel)
    ensures
        message_fits(m) <==> sections_fit(header_part(m)) && sections_fit(delivery_part(m))
            && sections_fit(annotations_part(m)) && sections_fit(properties_part(m))
            && sections_fit(application_part(m)) && sections_fit(body_sections(m.body))
            && sections_fit(footer_part(m)),
{
    let a0 = header_part(m);
    let a1 = delivery_part(m);
    let a2 = annotations_part(m);
    let a3 = properties_part(m);
    let a4 = application_part(m);
    let a5 = body_sections(m.body);
    let a6 = footer_part(m);
    let t5 = a5 + a6;
    let t4 = a4 + t5;
    let t3 = a3 + t4;
    let t2 = a2 + t3;
    let t1 = a1 + t2;
    assert(message_sections(m) == a0 + t1);
    assert(sections_fit(t5) <==> sections_fit(a5) && sections_fit(a6)) by {
        lemma_sections_concat(a5, a6);
    }
    assert(sections_fit(t4) <==> sections_fit(a4) && sections_fit(t5)) by {
        lemma_sections_concat(a4, t5);
    }
    assert(sections_fit(t3) <==> sections_fit(a3) && sections_fit(t4)) by {
        lemma_sections_concat(a3, t4);
    }
    assert(sections_fit(t2) <==> sections_fit(a2) && sections_fit(t3)) by {
        lemma_sections_concat(a2, t3);
    }
    assert(sections_fit(t1) <==> sections_fit(a1) && sections_fit(t2)) by {
        lemma_sections_concat(a1, t2);
    }
    assert(sections_fit(a0 + t1) <==> sections_fit(a0) && sections_fit(t1)) by {
        lemma_sections_concat(a0, t1);
    }
}

/// The bytes that stand for the message. The same message always gives the
/// same bytes, the entries of each map in their order. Every message in
/// memory fits its encoding, which the walk over the message shows.
pub fn encode(message: &AmqpMessage) -> (bytes: Vec<u8>)
    ensures
        bytes@ == enc_message(message@),
        message_fits(message@),
{
    let ghost m = message@;
    let mut out: Vec<u8> = Vec::new();
    encode_opt_header(message.header(), &mut out);
    let ghost e0 = out@;
    assert(e0 =~= enc_all(header_part(m)) && sections_fit(header_part(m)));
    encode_opt_map(SECTION_DELIVERY_ANNOTATIONS, message.delivery_annotations(), &mut out);
    let ghost e1 = out@;
    assert(e1 == e0 + enc_all(delivery_part(m)) && sections_fit(delivery_part(m)));
    encode_opt_map(SECTION_MESSAGE_ANNOTATIONS, message.message_annotations(), &mut out);
    let ghost e2 = out@;
    assert(e2 == e1 + enc_all(annotations_part(m)) && sections_fit(annotations_part(m)));
    encode_opt_properties(message.properties(), &mut out);
    let ghost e3 = out@;
    assert(e3 == e2 + enc_all(properties_part(m)) && sections_fit(properties_part(m)));
    encode_opt_map(SECTION_APPLICATION_PROPERTIES, message.application_properties(), &mut out);
    let ghost e4 = out@;
    assert(e4 == e3 + enc_all(application_part(m)) && sections_fit(application_part(m)));
    encode_body(message.body(), &mut out);
    let ghost e5 = out@;
    assert(e5 == e4 + enc_all(body_sections(m.body)) && sections_fit(body_sections(m.body)));
    encode_opt_map(SECTION_FOOTER, message.footer(), &mut out);
    assert(out@ == e5 + enc_all(footer_part(m)) && sections_fit(footer_part(m)));
    proof {
        lemma_enc_message_parts(m);
        lemma_message_fits_parts(m);
    }
    out
}

/// The models of sections in memory.
pub open spec fn sections_view(secs: Seq<(u8, AmqpValue)>) -> Seq<Section> {
    Seq::new(secs.len(), |i: int| (secs[i].0, secs[i].1@))
}

/// Sections in front of sections that may be missing.
pub open spec fn prepend(front: Seq<Section>, back: Option<Seq<Section>>) -> Option<Seq<Section>> {
    match back {
        Some(rest) => Some(front + rest),
        None => None,
    }
}

/// Reads sections up to the end of the bytes.
pub fn decode_sections(bytes: &[u8]) -> (r: Option<Vec<(u8, AmqpValue)>>)
    ensures
        match r {
            Some(secs) => parse_all(bytes@, 0) == Some(sections_view(secs@)),
            None => parse_all(bytes@, 0) is None,
        },
{
    let mut secs: Vec<(u8, AmqpValue)> = Vec::new();
    let mut cur: usize = 0;
    assert(sections_view(secs@) =~= Seq::<Section>::empty());
    assert(prepend(sections_view(secs@), parse_all(bytes@, 0)) == parse_all(bytes@, 0)) by {
        if parse_all(bytes@, 0) is Some {
            assert(sections_view(secs@) + parse_all(bytes@, 0)->0 =~= parse_all(bytes@, 0)->0);
        }
    }
    while cur < bytes.len()
        invariant
            cur <= bytes@.len(),
            parse_all(bytes@, 0) == prepend(sections_view(secs@), parse_all(bytes@, cur as int)),
        decreases bytes@.len() - cur,
    {
        if bytes.len() - cur < 3 || bytes[cur] != DESCRIBED || bytes[cur + 1] != SMALL_ULONG {
            return None;
        }
        let code = bytes[cur + 2];
        match decode_value(bytes, cur + 3) {
            Some((v, end)) => {
                let ghost before = sections_view(secs@);
                let ghost sec = (code, v@);
                secs.push((code, v));
                proof {
                    assert(sections_view(secs@) =~= before.push(sec));
                    let rest = parse_all(bytes@, end as int);
                    if rest is Some {
                        assert(before + (seq![sec] + rest->0) =~= before.push(sec) + rest->0);
                    }
                }
                cur = end;
            },
            None => {
                return None;
            },
        }
    }
    proof {
        assert(sections_view(secs@) + Seq::<Section>::empty() =~= sections_view(secs@));
    }
    Some(secs)
}

/// Takes the section at place `i` where it has this code.
fn take_section(secs: &Vec<(u8, AmqpValue)>, i: usize, code: u8) -> (r: (
    Option<&AmqpValue>,
    usize,
))
    requires
        i <= secs@.len(),
    ensures
        i <= r.1 <= secs@.len(),
        take_opt(sections_view(secs@).skip(i as int), code).1 == sections_view(secs@).skip(
            r.1 as int,
        ),
        match r.0 {
            Some(v) => r.1 == i + 1 && *v == secs@[i as int].1 && take_opt(
                sections_view(secs@).skip(i as int),
                code,
            ).0 == Some(v@),
            None => r.1 == i && take_opt(sections_view(secs@).skip(i as int), code).0 is None,
        },
{
    let ghost s = sections_view(secs@);
    if i < secs.len() && secs[i].0 == code {
        assert(s.skip(i as int)[0] == s[i as int]);
        assert(s.skip(i as int).drop_first() =~= s.skip(i + 1));
        (Some(&secs[i].1), i + 1)
    } else {
        if i < secs.len() {
            assert(s.skip(i as int)[0] == s[i as int]);
        }
        (None, i)
    }
}

/// The values of the sections from `from` up to `to`.
pub open spec fn values_between(s: Seq<Section>, from: int, to: int) -> Seq<ValueModel> {
    Seq::new((to - from) as nat, |j: int| s[from + j].1)
}

/// A run is taken as far as its code goes.
pub proof fn lemma_take_run_to(s: Seq<Section>, from: int, to: int, code: u8)
    requires
        0 <= from <= to <= s.len(),
        forall|j: int| from <= j < to ==> (#[trigger] s[j]).0 == code,
        to == s.len() || s[to].0 != code,
    ensures
        take_run(s.skip(from), code) == (values_between(s, from, to), s.skip(to)),
    decreases to - from,
{
    let t = s.skip(from);
    if from == to {
        if to < s.len() {
            assert(t[0] == s[to]);
        }
        assert(values_between(s, from, to) =~= Seq::<ValueModel>::empty());
    } else {
        assert(t[0] == s[from]);
        assert(t.drop_first() =~= s.skip(from + 1));
        lemma_take_run_to(s, from + 1, to, code);
        assert(seq![s[from].1] + values_between(s, from + 1, to) =~= values_between(s, from, to));
    }
}

/// Where the sections with this code end that start at place `i`.
fn run_end(secs: &Vec<(u8, AmqpValue)>, i: usize, code: u8) -> (e: usize)
    requires
        i <= secs@.len(),
    ensures
        i <= e <= secs@.len(),
        take_run(sections_view(secs@).skip(i as int), code) == (
            values_between(sections_view(secs@), i as int, e as int),
            sections_view(secs@).skip(e as int),
        ),
        i < secs@.len() && secs@[i as int].0 == code ==> i < e,
{
    let mut e: usize = i;
    while e < secs.len() && secs[e].0 == code
        invariant
            i <= e <= secs@.len(),
            forall|j: int| i <= j < e ==> (#[trigger] sections_view(secs@)[j]).0 == code,
        decreases secs@.len() - e,
    {
        e = e + 1;
    }
    proof {
        lemma_take_run_to(sections_view(secs@), i as int, e as int, code);
    }
    e
}

/// The binary chunks that the sections from `from` up to `to` hold, where
/// all of them hold byte strings.
fn binary_chunks(secs: &Vec<(u8, AmqpValue)>, from: usize, to: usize) -> (r: Option<
    Vec<Vec<u8>>,
>)
    requires
        from <= to <= secs@.len(),
    ensures
        match r {
            Some(chunks) => binary_body(
                values_between(sections_view(secs@), from as int, to as int),
            ) == Some(BodyModel::Binary(chunks_view(chunks@))),
            None => binary_body(values_between(sections_view(secs@), from as int, to as int))
                is None,
        },
{
    let ghost values = values_between(sections_view(secs@), from as int, to as int);
    let mut chunks: Vec<Vec<u8>> = Vec::new();
    let mut i: usize = from;
    while i < to
        invariant
            from <= i <= to <= secs@.len(),
            values == values_between(sections_view(secs@), from as int, to as int),
            chunks@.len() == i - from,
            forall|j: int| 0 <= j < i - from ==> (#[trigger] values[j]) is Binary,
            forall|j: int| 0 <= j < i - from ==> (#[trigger] chunks@[j])@ == values[j]->Binary_0,
        decreases to - i,
    {
        match &secs[i].1 {
            AmqpValue::Binary(b) => {
                chunks.push(clone_bytes(b));
            },
            _ => {
                assert(!(values[i - from] is Binary));
                return None;
            },
        }
        i = i + 1;
    }
    assert(binary_body(values)->0->Binary_0 =~= chunks_view(chunks@));
    Some(chunks)
}

/// The list chunks that the sections from `from` up to `to` hold, where all
/// of them hold lists.
fn sequence_chunks(secs: &Vec<(u8, AmqpValue)>, from: usize, to: usize) -> (r: Option<
    Vec<Vec<AmqpValue>>,
>)
    requires
        from <= to <= secs@.len(),
    ensures
        match r {
            Some(lists) => sequence_body(
                values_between(sections_view(secs@), from as int, to as int),
            ) == Some(BodyModel::Sequence(lists_view(lists@))),
            None => sequence_body(values_between(sections_view(secs@), from as int, to as int))
                is None,
        },
{
    let ghost values = values_between(sections_view(secs@), from as int, to as int);
    let mut lists: Vec<Vec<AmqpValue>> = Vec::new();
    let mut i: usize = from;
    while i < to
        invariant
            from <= i <= to <= secs@.len(),
            values == values_between(sections_view(secs@), from as int, to as int),
            lists@.len() == i - from,
            forall|j: int| 0 <= j < i - from ==> (#[trigger] values[j]) is List,
            forall|j: int|
                0 <= j < i - from ==> list_view((#[trigger] lists@[j])@) == values[j]->List_0,
        decreases to - i,
    {
        match &secs[i].1 {
            AmqpValue::List(items) => {
                proof {
                    lemma_list_value_view(*items);
                }
                lists.push(clone_list(items));
            },
            _ => {
                assert(!(values[i - from] is List));
                return None;
            },
        }
        i = i + 1;
    }
    assert(sequence_body(values)->0->Sequence_0 =~= lists_view(lists@));
    Some(lists)
}

/// Takes the sections of the body that start at place `i`.
fn take_body_sections(secs: &Vec<(u8, AmqpValue)>, i: usize) -> (r: (
    Option<AmqpMessageBody>,
    usize,
))
    requires
        i <= secs@.len(),
    ensures
        i <= r.1 <= secs@.len(),
        take_body(sections_view(secs@).skip(i as int)).1 == sections_view(secs@).skip(r.1 as int),
        match r.0 {
            Some(body) => take_body(sections_view(secs@).skip(i as int)).0 == Some(body@),
            None => take_body(sections_view(secs@).skip(i as int)).0 is None,
        },
{
    let ghost s = sections_view(secs@);
    if i < secs.len() {
        assert(s.skip(i as int)[0] == s[i as int]);
        assert(s.skip(i as int).drop_first() =~= s.skip(i + 1));
    }
    if i < secs.len() && secs[i].0 == SECTION_DATA {
        let e = run_end(secs, i, SECTION_DATA);
        match binary_chunks(secs, i, e) {
            Some(chunks) => (Some(AmqpMessageBody::Binary(chunks)), e),
            None => (None, e),
        }
    } else if i < secs.len() && secs[i].0 == SECTION_SEQUENCE {
        let e = run_end(secs, i, SECTION_SEQUENCE);
        match sequence_chunks(secs, i, e) {
            Some(lists) => (Some(AmqpMessageBody::Sequence(lists)), e),
            None => (None, e),
        }
    } else if i < secs.len() && secs[i].0 == SECTION_VALUE {
        (Some(AmqpMessageBody::Value(clone_value(&secs[i].1))), i + 1)
    } else {
        (Some(AmqpMessageBody::Empty), i)
    }
}

/// The section map that a section value stands for, where the section is
/// there. `None` where the section is there and its value is no such map.
fn opt_map_from_value<K: SectionKey>(taken: Option<&AmqpValue>) -> (r: Option<
    Option<AmqpOrderedMap<K, AmqpValue>>,
>)
    requires
        taken is Some ==> value_wf(taken->0@),
    ensures
        match r {
            Some(o) => opt_value_map::<K>(
                match taken {
                    Some(v) => Some(v@),
                    None => None,
                },
            ) == Some(crate::message::opt_map_view(o)),
            None => opt_value_map::<K>(
                match taken {
                    Some(v) => Some(v@),
                    None => None,
                },
            ) is None,
        },
{
    match taken {
        Some(v) => match section_from_value::<K>(v) {
            Ok(map) => Some(Some(map)),
            Err(_) => None,
        },
        None => Some(None),
    }
}

/// The message that the sections make up, where they make up one.
fn assemble_message(secs: &Vec<(u8, AmqpValue)>) -> (r: Option<AmqpMessage>)
    requires
        sections_wf(sections_view(secs@)),
    ensures
        match r {
            Some(m) => assemble(sections_view(secs@)) == Some(m@),
            None => assemble(sections_view(secs@)) is None,
        },
{
    let ghost s = sections_view(secs@);
    assert(s.skip(0) =~= s);
    let builder = AmqpMessage::builder();
    let (header, i1) = take_section(secs, 0, SECTION_HEADER);
    let (delivery, i2) = take_section(secs, i1, SECTION_DELIVERY_ANNOTATIONS);
    let (annotations, i3) = take_section(secs, i2, SECTION_MESSAGE_ANNOTATIONS);
    let (properties, i4) = take_section(secs, i3, SECTION_PROPERTIES);
    let (application, i5) = take_section(secs, i4, SECTION_APPLICATION_PROPERTIES);
    let (body, i6) = take_body_sections(secs, i5);
    let (footer, i7) = take_section(secs, i6, SECTION_FOOTER);
    if i7 != secs.len() {
        return None;
    }
    assert(s.skip(i7 as int).len() == 0);
    assert(delivery is Some ==> value_wf(delivery->0@)) by {
        if delivery is Some {
            assert(value_wf(s[i1 as int].1));
        }
    }
    assert(annotations is Some ==> value_wf(annotations->0@)) by {
        if annotations is Some {
            assert(value_wf(s[i2 as int].1));
        }
    }
    assert(application is Some ==> value_wf(application->0@)) by {
        if application is Some {
            assert(value_wf(s[i4 as int].1));
        }
    }
    assert(footer is Some ==> value_wf(footer->0@)) by {
        if footer is Some {
            assert(value_wf(s[i6 as int].1));
        }
    }
    let builder = match header {
        Some(v) => match AmqpMessageHeader::from_value(v) {
            Some(h) => builder.with_header(h),
            None => {
                return None;
            },
        },
        None => builder,
    };
    let builder = match opt_map_from_value::<AmqpAnnotationKey>(delivery) {
        Some(Some(map)) => builder.with_delivery_annotations(map),
        Some(None) => builder,
        None => {
            return None;
        },
    };
    let builder = match opt_map_from_value::<AmqpAnnotationKey>(annotations) {
        Some(Some(map)) => builder.with_message_annotations(map),
        Some(None) => builder,
        None => {
            return None;
        },
    };
    let builder = match properties {
        Some(v) => match AmqpMessageProperties::from_value(v) {
            Some(p) => builder.with_properties(p),
            None => {
                return None;
            },
        },
        None => builder,
    };
    let builder = match opt_map_from_value::<String>(application) {
        Some(Some(map)) => builder.with_application_properties(map),
        Some(None) => builder,
        None => {
            return None;
        },
    };
    let builder = match body {
        Some(b) => builder.with_message_body(b),
        None => {
            return None;
        },
    };
    let builder = match opt_map_from_value::<AmqpAnnotationKey>(footer) {
        Some(Some(map)) => builder.with_footer(map),
        Some(None) => builder,
        None => {
            return None;
        },
    };
    Some(builder.build())
}

/// The message that the bytes stand for. Decoding undoes encoding and nothing
/// else: it succeeds exactly on the bytes that are the encoding of a
/// well-formed message, and gives that message. On all other bytes, truncated
/// or corrupted in whatever way, it fails with `DecodeFailure`; no part of a
/// message is handed out then.
pub fn decode(bytes: &[u8]) -> (r: Result<AmqpMessage, AmqpError>)
    ensures
        match r {
            Ok(m) => m@.wf() && message_fits(m@) && enc_message(m@) == bytes@,
            Err(e) => e == AmqpError::DecodeFailure && forall|m: MessageModel|
                m.wf() && message_fits(m) ==> #[trigger] enc_message(m) != bytes@,
        },
        r is Ok <==> parse_message(bytes@) is Some,
        r is Ok ==> parse_message(bytes@) == Some(r->Ok_0@),
{
    proof {
        assert forall|m: MessageModel| m.wf() && message_fits(m) && #[trigger] enc_message(m)
            == bytes@ implies parse_message(bytes@) == Some(m) by {
            lemma_decode_encode(m);
        }
    }
    let secs = match decode_sections(bytes) {
        Some(secs) => secs,
        None => {
            return Err(AmqpError::DecodeFailure);
        },
    };
    proof {
        lemma_enc_parse_all(bytes@, 0, sections_view(secs@));
    }
    match assemble_message(&secs) {
        Some(m) => {
            proof {
                lemma_encode_decode(bytes@, m@);
            }
            Ok(m)
        },
        None => Err(AmqpError::DecodeFailure),
    }
}

/// A section that is absent and a section that is an empty map are told
/// apart on the wire. Take a well-formed message without delivery
/// annotations, and the same message with delivery annotations set to the
/// empty map: each is decoded as it was encoded, the one without the section
/// and the other with the section and no entry in it, and the two encodings
/// differ.
pub proof fn lemma_absent_is_not_empty(m: MessageModel)
    requires
        m.wf(),
        message_fits(m),
        m.delivery_annotations is None,
    ensures
        ({
            let e = MessageModel { delivery_annotations: Some(Seq::empty()), ..m };
            &&& parse_message(enc_message(m)) == Some(m)
            &&& parse_message(enc_message(e)) == Some(e)
            &&& enc_message(m) != enc_message(e)
        }),
{
    let e = MessageModel { delivery_annotations: Some(Seq::empty()), ..m };
    lemma_message_fits_parts(m);
    lemma_message_fits_parts(e);
    let v = section_value::<AmqpAnnotationKey>(Seq::empty());
    assert(v->Dict_0.len() == 0);
    assert(value_fits(v)) by {
        assert(crate::value::pairs_fits(v->Dict_0));
    }
    assert(delivery_part(e) == seq![(SECTION_DELIVERY_ANNOTATIONS, v)]);
    assert(sections_fit(delivery_part(e)));
    assert(header_part(e) == header_part(m));
    assert(annotations_part(e) == annotations_part(m));
    assert(properties_part(e) == properties_part(m));
    assert(application_part(e) == application_part(m));
    assert(footer_part(e) == footer_part(m));
    lemma_decode_encode(m);
    lemma_decode_encode(e);
}

} // verus!
