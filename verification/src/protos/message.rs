//! The frames that carry messages between the two ends of a connection.
//!
//! Each frame is a protobuf message whose field 1 is the frame's type and
//! field 2 the 16-byte identifier of the message it belongs to:
//!
//! ```text
//! enum Type        { ONESHOT = 0; BEGIN = 1; PROCESS = 2; END = 3; }
//! enum Compression { NONE = 0; SNAPPY = 1; }
//! message Header   { Type type = 1; bytes uuid = 2; }
//! message Oneshot  { Type type = 1; bytes uuid = 2; bytes message = 3; }
//! message Begin    { Type type = 1; bytes uuid = 2; Compression compression = 3; uint64 length = 4; }
//! message Process  { Type type = 1; bytes uuid = 2; uint64 seq = 3; bytes message = 4; }
//! message End      { Type type = 1; bytes uuid = 2; }
//! ```
//!
//! As in proto3, a field that holds its default value (zero, empty) is not
//! written, and a field that is absent reads as its default.

use super::wire::{
    all_wf, bytes_field, enum_field, field_wf, fields_bytes, get_bytes_field, get_enum_field,
    get_varint_field, lacks_number, lemma_absent_default, lemma_concat_props,
    lemma_fields_bytes_concat, lemma_fields_bytes_single, lemma_fields_roundtrip,
    lemma_enum_field_below, lemma_prefix_without, lemma_single_field, lemma_suffix_without, parse_fields, read_fields,
    varint_field, write_bytes_field, write_varint_field, FieldView, WireValueView,
};
use vstd::prelude::*;

verus! {

/// The kind of a frame.
#[allow(non_camel_case_types)]
#[derive(Clone, Copy, PartialEq, Eq, Structural, Debug)]
pub enum Type {
    ONESHOT,
    BEGIN,
    PROCESS,
    END,
}

/// How the payload of a multi-frame message is compressed.
#[allow(non_camel_case_types)]
#[derive(Clone, Copy, PartialEq, Eq, Structural, Debug)]
pub enum Compression {
    NONE,
    SNAPPY,
}

pub open spec fn type_number(t: Type) -> u64 {
    match t {
        Type::ONESHOT => 0,
        Type::BEGIN => 1,
        Type::PROCESS => 2,
        Type::END => 3,
    }
}

/// The type that a known enumeration value names (values are below four).
pub open spec fn type_of(v: u64) -> Type {
    if v == 0 {
        Type::ONESHOT
    } else if v == 1 {
        Type::BEGIN
    } else if v == 2 {
        Type::PROCESS
    } else {
        Type::END
    }
}

pub open spec fn compression_number(c: Compression) -> u64 {
    match c {
        Compression::NONE => 0,
        Compression::SNAPPY => 1,
    }
}

/// The compression that a known enumeration value names (values are below
/// two).
pub open spec fn compression_of(v: u64) -> Compression {
    if v == 0 {
        Compression::NONE
    } else {
        Compression::SNAPPY
    }
}

fn type_from(v: u64) -> (t: Type)
    ensures
        t == type_of(v),
{
    if v == 0 {
        Type::ONESHOT
    } else if v == 1 {
        Type::BEGIN
    } else if v == 2 {
        Type::PROCESS
    } else {
        Type::END
    }
}

fn type_to(t: Type) -> (v: u64)
    ensures
        v == type_number(t),
{
    match t {
        Type::ONESHOT => 0,
        Type::BEGIN => 1,
        Type::PROCESS => 2,
        Type::END => 3,
    }
}

fn compression_from(v: u64) -> (c: Compression)
    ensures
        c == compression_of(v),
{
    if v == 0 {
        Compression::NONE
    } else {
        Compression::SNAPPY
    }
}

fn compression_to(c: Compression) -> (v: u64)
    ensures
        v == compression_number(c),
{
    match c {
        Compression::NONE => 0,
        Compression::SNAPPY => 1,
    }
}

// ---------------------------------------------------------------------------
// Frames and their views
// ---------------------------------------------------------------------------

/// The part that every frame begins with.
pub struct Header {
    pub field_type: Type,
    pub uuid: Vec<u8>,
}

/// A message that travels in a single frame.
pub struct Oneshot {
    pub field_type: Type,
    pub uuid: Vec<u8>,
    pub message: Vec<u8>,
}

/// Opens a multi-frame message: its compression and its total length.
pub struct Begin {
    pub field_type: Type,
    pub uuid: Vec<u8>,
    pub compression: Compression,
    pub length: u64,
}

/// One chunk of a multi-frame message.
pub struct Process {
    pub field_type: Type,
    pub uuid: Vec<u8>,
    pub seq: u64,
    pub message: Vec<u8>,
}

/// Closes a multi-frame message.
pub struct End {
    pub field_type: Type,
    pub uuid: Vec<u8>,
}

pub ghost struct HeaderView {
    pub field_type: Type,
    pub uuid: Seq<u8>,
}

pub ghost struct OneshotView {
    pub field_type: Type,
    pub uuid: Seq<u8>,
    pub message: Seq<u8>,
}

pub ghost struct BeginView {
    pub field_type: Type,
    pub uuid: Seq<u8>,
    pub compression: Compression,
    pub length: u64,
}

pub ghost struct ProcessView {
    pub field_type: Type,
    pub uuid: Seq<u8>,
    pub seq: u64,
    pub message: Seq<u8>,
}

pub ghost struct EndView {
    pub field_type: Type,
    pub uuid: Seq<u8>,
}

impl View for Header {
    type V = HeaderView;

    open spec fn view(&self) -> HeaderView {
        HeaderView { field_type: self.field_type, uuid: self.uuid@ }
    }
}

impl View for Oneshot {
    type V = OneshotView;

    open spec fn view(&self) -> OneshotView {
        OneshotView { field_type: self.field_type, uuid: self.uuid@, message: self.message@ }
    }
}

impl View for Begin {
    type V = BeginView;

    open spec fn view(&self) -> BeginView {
        BeginView {
            field_type: self.field_type,
            uuid: self.uuid@,
            compression: self.compression,
            length: self.length,
        }
    }
}

impl View for Process {
    type V = ProcessView;

    open spec fn view(&self) -> ProcessView {
        ProcessView {
            field_type: self.field_type,
            uuid: self.uuid@,
            seq: self.seq,
            message: self.message@,
        }
    }
}

impl View for End {
    type V = EndView;

    open spec fn view(&self) -> EndView {
        EndView { field_type: self.field_type, uuid: self.uuid@ }
    }
}

// ---------------------------------------------------------------------------
// What the bytes of each frame are
// ---------------------------------------------------------------------------

/// A varint field, omitted when its value is zero.
pub open spec fn varint_part(n: u64, v: u64) -> Seq<FieldView> {
    if v == 0 {
        seq![]
    } else {
        seq![FieldView { number: n, value: WireValueView::Varint(v) }]
    }
}

/// A length-delimited field, omitted when it is empty.
pub open spec fn bytes_part(n: u64, b: Seq<u8>) -> Seq<FieldView> {
    if b.len() == 0 {
        seq![]
    } else {
        seq![FieldView { number: n, value: WireValueView::Bytes(b) }]
    }
}

pub open spec fn header_fields(h: HeaderView) -> Seq<FieldView> {
    varint_part(1, type_number(h.field_type)) + bytes_part(2, h.uuid)
}

pub open spec fn oneshot_fields(o: OneshotView) -> Seq<FieldView> {
    varint_part(1, type_number(o.field_type)) + bytes_part(2, o.uuid) + bytes_part(3, o.message)
}

pub open spec fn begin_fields(b: BeginView) -> Seq<FieldView> {
    varint_part(1, type_number(b.field_type)) + bytes_part(2, b.uuid) + varint_part(
        3,
        compression_number(b.compression),
    ) + varint_part(4, b.length)
}

pub open spec fn process_fields(p: ProcessView) -> Seq<FieldView> {
    varint_part(1, type_number(p.field_type)) + bytes_part(2, p.uuid) + varint_part(3, p.seq)
        + bytes_part(4, p.message)
}

pub open spec fn end_fields(e: EndView) -> Seq<FieldView> {
    varint_part(1, type_number(e.field_type)) + bytes_part(2, e.uuid)
}

/// The bytes of a header frame.
pub open spec fn header_bytes(h: HeaderView) -> Seq<u8> {
    fields_bytes(header_fields(h))
}

/// The bytes of a single-frame message.
pub open spec fn oneshot_bytes(o: OneshotView) -> Seq<u8> {
    fields_bytes(oneshot_fields(o))
}

/// The bytes of a begin frame.
pub open spec fn begin_bytes(b: BeginView) -> Seq<u8> {
    fields_bytes(begin_fields(b))
}

/// The bytes of a chunk frame.
pub open spec fn process_bytes(p: ProcessView) -> Seq<u8> {
    fields_bytes(process_fields(p))
}

/// The bytes of an end frame.
pub open spec fn end_bytes(e: EndView) -> Seq<u8> {
    fields_bytes(end_fields(e))
}

// ---------------------------------------------------------------------------
// What a frame reads as
// ---------------------------------------------------------------------------

pub open spec fn parse_header(s: Seq<u8>) -> Option<HeaderView> {
    match parse_fields(s) {
        Some(fs) => match (enum_field(fs, 1, 4), bytes_field(fs, 2)) {
            (Some(t), Some(u)) => Some(HeaderView { field_type: type_of(t), uuid: u }),
            _ => None,
        },
        None => None,
    }
}

pub open spec fn parse_oneshot(s: Seq<u8>) -> Option<OneshotView> {
    match parse_fields(s) {
        Some(fs) => match (enum_field(fs, 1, 4), bytes_field(fs, 2), bytes_field(fs, 3)) {
            (Some(t), Some(u), Some(m)) => Some(
                OneshotView { field_type: type_of(t), uuid: u, message: m },
            ),
            _ => None,
        },
        None => None,
    }
}

pub open spec fn parse_begin(s: Seq<u8>) -> Option<BeginView> {
    match parse_fields(s) {
        Some(fs) => match (
            enum_field(fs, 1, 4),
            bytes_field(fs, 2),
            enum_field(fs, 3, 2),
            varint_field(fs, 4),
        ) {
            (Some(t), Some(u), Some(c), Some(l)) => Some(
                BeginView {
                    field_type: type_of(t),
                    uuid: u,
                    compression: compression_of(c),
                    length: l,
                },
            ),
            _ => None,
        },
        None => None,
    }
}

pub open spec fn parse_process(s: Seq<u8>) -> Option<ProcessView> {
    match parse_fields(s) {
        Some(fs) => match (
            enum_field(fs, 1, 4),
            bytes_field(fs, 2),
            varint_field(fs, 3),
            bytes_field(fs, 4),
        ) {
            (Some(t), Some(u), Some(q), Some(m)) => Some(
                ProcessView { field_type: type_of(t), uuid: u, seq: q, message: m },
            ),
            _ => None,
        },
        None => None,
    }
}

pub open spec fn parse_end(s: Seq<u8>) -> Option<EndView> {
    match parse_fields(s) {
        Some(fs) => match (enum_field(fs, 1, 4), bytes_field(fs, 2)) {
            (Some(t), Some(u)) => Some(EndView { field_type: type_of(t), uuid: u }),
            _ => None,
        },
        None => None,
    }
}

// ---------------------------------------------------------------------------
// Reading back what was written
// ---------------------------------------------------------------------------

/// A frame's payload fits the wire format's length field, which is read as
/// a 32-bit number.
pub open spec fn fits(b: Seq<u8>) -> bool {
    b.len() <= u32::MAX
}

proof fn lemma_varint_part(n: u64, v: u64, count: u64, m: u64)
    requires
        1 <= n <= 1000,
    ensures
        varint_field(varint_part(n, v), n) == Some(v),
        v < count <= 0x1_0000_0000 ==> enum_field(varint_part(n, v), n, count) == Some(v),
        m != n ==> lacks_number(varint_part(n, v), m),
        all_wf(varint_part(n, v)),
{
    if v == 0 {
        lemma_absent_default(varint_part(n, v), n, count);
    } else {
        lemma_single_field(FieldView { number: n, value: WireValueView::Varint(v) }, count);
        assert(field_wf(varint_part(n, v)[0]));
    }
}

proof fn lemma_bytes_part(n: u64, b: Seq<u8>, count: u64, m: u64)
    requires
        1 <= n <= 1000,
        fits(b),
    ensures
        bytes_field(bytes_part(n, b), n) == Some(b),
        m != n ==> lacks_number(bytes_part(n, b), m),
        all_wf(bytes_part(n, b)),
{
    if b.len() == 0 {
        lemma_absent_default(bytes_part(n, b), n, count);
        assert(b =~= Seq::<u8>::empty());
    } else {
        lemma_single_field(FieldView { number: n, value: WireValueView::Bytes(b) }, count);
        assert(field_wf(bytes_part(n, b)[0]));
    }
}

/// A header, read back from its bytes, is that header.
pub proof fn lemma_header_roundtrip(h: HeaderView)
    requires
        fits(h.uuid),
    ensures
        parse_header(header_bytes(h)) == Some(h),
{
    let a = varint_part(1, type_number(h.field_type));
    let b = bytes_part(2, h.uuid);
    lemma_varint_part(1, type_number(h.field_type), 4, 2);
    lemma_bytes_part(2, h.uuid, 4, 1);
    lemma_concat_props(a, b, 1);
    lemma_fields_roundtrip(a + b);
    lemma_suffix_without(a, b, 1, 4);
    lemma_prefix_without(a, b, 2, 4);
}

/// The header of a single-frame message's bytes is its type and identifier,
/// and the whole frame reads back as that message.
pub proof fn lemma_oneshot_roundtrip(o: OneshotView)
    requires
        fits(o.uuid),
        fits(o.message),
    ensures
        parse_oneshot(oneshot_bytes(o)) == Some(o),
        parse_header(oneshot_bytes(o)) == Some(
            HeaderView { field_type: o.field_type, uuid: o.uuid },
        ),
{
    let a = varint_part(1, type_number(o.field_type));
    let b = bytes_part(2, o.uuid);
    let c = bytes_part(3, o.message);
    lemma_varint_part(1, type_number(o.field_type), 4, 2);
    lemma_varint_part(1, type_number(o.field_type), 4, 3);
    lemma_bytes_part(2, o.uuid, 4, 1);
    lemma_bytes_part(2, o.uuid, 4, 3);
    lemma_bytes_part(3, o.message, 4, 1);
    lemma_bytes_part(3, o.message, 4, 2);
    lemma_concat_props(a, b, 1);
    lemma_concat_props(a, b, 3);
    lemma_concat_props(a + b, c, 1);
    lemma_fields_roundtrip(a + b + c);
    lemma_suffix_without(a + b, c, 1, 4);
    lemma_suffix_without(a, b, 1, 4);
    lemma_suffix_without(a + b, c, 2, 4);
    lemma_prefix_without(a, b, 2, 4);
    lemma_prefix_without(a + b, c, 3, 4);
}

/// The header of a begin frame's bytes is its type and identifier, and the
/// whole frame reads back as that frame.
pub proof fn lemma_begin_roundtrip(g: BeginView)
    requires
        fits(g.uuid),
    ensures
        parse_begin(begin_bytes(g)) == Some(g),
        parse_header(begin_bytes(g)) == Some(HeaderView { field_type: g.field_type, uuid: g.uuid }),
{
    let a = varint_part(1, type_number(g.field_type));
    let b = bytes_part(2, g.uuid);
    let c = varint_part(3, compression_number(g.compression));
    let d = varint_part(4, g.length);
    lemma_varint_part(1, type_number(g.field_type), 4, 2);
    lemma_varint_part(1, type_number(g.field_type), 4, 3);
    lemma_varint_part(1, type_number(g.field_type), 4, 4);
    lemma_bytes_part(2, g.uuid, 4, 1);
    lemma_bytes_part(2, g.uuid, 4, 3);
    lemma_bytes_part(2, g.uuid, 4, 4);
    lemma_varint_part(3, compression_number(g.compression), 2, 1);
    lemma_varint_part(3, compression_number(g.compression), 2, 2);
    lemma_varint_part(3, compression_number(g.compression), 2, 4);
    lemma_varint_part(4, g.length, 2, 1);
    lemma_varint_part(4, g.length, 2, 2);
    lemma_varint_part(4, g.length, 2, 3);
    lemma_concat_props(a, b, 3);
    lemma_concat_props(a, b, 4);
    lemma_concat_props(a + b, c, 4);
    lemma_concat_props(c, d, 1);
    lemma_concat_props(c, d, 2);
    lemma_concat_props(a + b + c, d, 1);
    lemma_fields_roundtrip(a + b + c + d);
    assert(a + b + c + d =~= (a + b) + (c + d));
    lemma_suffix_without(a + b, c + d, 1, 4);
    lemma_suffix_without(a + b, c + d, 2, 4);
    lemma_suffix_without(a, b, 1, 4);
    lemma_prefix_without(a, b, 2, 4);
    lemma_suffix_without(a + b + c, d, 3, 2);
    lemma_prefix_without(a + b, c, 3, 2);
    lemma_prefix_without(a + b + c, d, 4, 2);
}

/// On the wire a begin frame carries its compression as varint field 3,
/// numbered as the schema says: `NONE` is 0 (so the field is left out) and
/// `SNAPPY` is 1.
pub proof fn law_begin_compression_written(g: BeginView)
    requires
        fits(g.uuid),
    ensures
        parse_fields(begin_bytes(g)) matches Some(fs) && varint_field(fs, 3) == Some(
            if g.compression == Compression::SNAPPY {
                1u64
            } else {
                0u64
            },
        ),
{
    let a = varint_part(1, type_number(g.field_type));
    let b = bytes_part(2, g.uuid);
    let c = varint_part(3, compression_number(g.compression));
    let d = varint_part(4, g.length);
    lemma_varint_part(1, type_number(g.field_type), 4, 3);
    lemma_bytes_part(2, g.uuid, 4, 3);
    lemma_varint_part(3, compression_number(g.compression), 2, 4);
    lemma_varint_part(4, g.length, 2, 3);
    lemma_varint_part(4, g.length, 2, 1);
    lemma_varint_part(4, g.length, 2, 2);
    lemma_varint_part(3, compression_number(g.compression), 2, 1);
    lemma_varint_part(3, compression_number(g.compression), 2, 2);
    lemma_varint_part(1, type_number(g.field_type), 4, 2);
    lemma_varint_part(1, type_number(g.field_type), 4, 4);
    lemma_bytes_part(2, g.uuid, 4, 1);
    lemma_bytes_part(2, g.uuid, 4, 4);
    lemma_concat_props(a, b, 3);
    lemma_concat_props(a + b, c, 4);
    lemma_concat_props(c, d, 1);
    lemma_concat_props(c, d, 2);
    lemma_concat_props(a + b + c, d, 1);
    lemma_fields_roundtrip(a + b + c + d);
    lemma_suffix_without(a + b + c, d, 3, 2);
    lemma_prefix_without(a + b, c, 3, 2);
}

/// Reading a begin frame, the compression is `SNAPPY` exactly when field 3
/// holds the number 1.
pub proof fn law_begin_compression_read(s: Seq<u8>)
    ensures
        parse_begin(s) matches Some(g) ==> (parse_fields(s) matches Some(fs) && (g.compression
            == Compression::SNAPPY <==> enum_field(fs, 3, 2) == Some(1u64))),
{
    match parse_fields(s) {
        Some(fs) => {
            match enum_field(fs, 3, 2) {
                Some(v) => {
                    lemma_enum_field_below(fs, 3, 2);
                },
                None => {},
            }
        },
        None => {},
    }
}

/// The header of a chunk frame's bytes is its type and identifier, and the
/// whole frame reads back as that frame.
pub proof fn lemma_process_roundtrip(p: ProcessView)
    requires
        fits(p.uuid),
        fits(p.message),
    ensures
        parse_process(process_bytes(p)) == Some(p),
        parse_header(process_bytes(p)) == Some(
            HeaderView { field_type: p.field_type, uuid: p.uuid },
        ),
{
    let a = varint_part(1, type_number(p.field_type));
    let b = bytes_part(2, p.uuid);
    let c = varint_part(3, p.seq);
    let d = bytes_part(4, p.message);
    lemma_varint_part(1, type_number(p.field_type), 4, 2);
    lemma_varint_part(1, type_number(p.field_type), 4, 3);
    lemma_varint_part(1, type_number(p.field_type), 4, 4);
    lemma_bytes_part(2, p.uuid, 4, 1);
    lemma_bytes_part(2, p.uuid, 4, 3);
    lemma_bytes_part(2, p.uuid, 4, 4);
    lemma_varint_part(3, p.seq, 4, 1);
    lemma_varint_part(3, p.seq, 4, 2);
    lemma_varint_part(3, p.seq, 4, 4);
    lemma_bytes_part(4, p.message, 4, 1);
    lemma_bytes_part(4, p.message, 4, 2);
    lemma_bytes_part(4, p.message, 4, 3);
    lemma_concat_props(a, b, 3);
    lemma_concat_props(a, b, 4);
    lemma_concat_props(a + b, c, 4);
    lemma_concat_props(c, d, 1);
    lemma_concat_props(c, d, 2);
    lemma_concat_props(a + b + c, d, 1);
    lemma_fields_roundtrip(a + b + c + d);
    assert(a + b + c + d =~= (a + b) + (c + d));
    lemma_suffix_without(a + b, c + d, 1, 4);
    lemma_suffix_without(a + b, c + d, 2, 4);
    lemma_suffix_without(a, b, 1, 4);
    lemma_prefix_without(a, b, 2, 4);
    lemma_suffix_without(a + b + c, d, 3, 4);
    lemma_prefix_without(a + b, c, 3, 4);
    lemma_prefix_without(a + b + c, d, 4, 4);
}

/// The header of an end frame's bytes is its type and identifier, and the
/// whole frame reads back as that frame.
pub proof fn lemma_end_roundtrip(e: EndView)
    requires
        fits(e.uuid),
    ensures
        parse_end(end_bytes(e)) == Some(e),
        parse_header(end_bytes(e)) == Some(HeaderView { field_type: e.field_type, uuid: e.uuid }),
{
    lemma_header_roundtrip(HeaderView { field_type: e.field_type, uuid: e.uuid });
}

// ---------------------------------------------------------------------------
// Writing and reading frames
// ---------------------------------------------------------------------------

fn write_varint_part(out: &mut Vec<u8>, n: u64, v: u64)
    requires
        1 <= n <= 1000,
    ensures
        final(out)@ == old(out)@ + fields_bytes(varint_part(n, v)),
{
    if v == 0 {
        assert(fields_bytes(varint_part(n, v)) == Seq::<u8>::empty());
        assert(old(out)@ + Seq::<u8>::empty() =~= old(out)@);
    } else {
        write_varint_field(out, n, v);
        proof {
            lemma_fields_bytes_single(FieldView { number: n, value: WireValueView::Varint(v) });
        }
    }
}

fn write_bytes_part(out: &mut Vec<u8>, n: u64, b: &[u8])
    requires
        1 <= n <= 1000,
    ensures
        final(out)@ == old(out)@ + fields_bytes(bytes_part(n, b@)),
{
    if b.len() == 0 {
        assert(fields_bytes(bytes_part(n, b@)) == Seq::<u8>::empty());
        assert(old(out)@ + Seq::<u8>::empty() =~= old(out)@);
    } else {
        write_bytes_field(out, n, b);
        proof {
            lemma_fields_bytes_single(FieldView { number: n, value: WireValueView::Bytes(b@) });
        }
    }
}

impl Header {
    /// Reads the header of a frame.
    pub fn parse_from_bytes(data: &[u8]) -> (r: Option<Header>)
        ensures
            match r {
                Some(h) => parse_header(data@) == Some(h@),
                None => parse_header(data@) is None,
            },
    {
        let fs = match read_fields(data) {
            Some(fs) => fs,
            None => {
                return None;
            },
        };
        let t = match get_enum_field(&fs, 1, 4) {
            Some(t) => t,
            None => {
                return None;
            },
        };
        let u = match get_bytes_field(&fs, 2) {
            Some(u) => u,
            None => {
                return None;
            },
        };
        Some(Header { field_type: type_from(t), uuid: u })
    }
}

impl Oneshot {
    /// The bytes of this frame.
    pub fn write_to_bytes(&self) -> (r: Vec<u8>)
        ensures
            r@ == oneshot_bytes(self@),
    {
        let mut out: Vec<u8> = Vec::new();
        write_varint_part(&mut out, 1, type_to(self.field_type));
        write_bytes_part(&mut out, 2, self.uuid.as_slice());
        write_bytes_part(&mut out, 3, self.message.as_slice());
        proof {
            let a = varint_part(1, type_number(self.field_type));
            let b = bytes_part(2, self.uuid@);
            let c = bytes_part(3, self.message@);
            lemma_fields_bytes_concat(a, b);
            lemma_fields_bytes_concat(a + b, c);
            assert(out@ =~= oneshot_bytes(self@));
        }
        out
    }

    /// Reads a single-frame message.
    pub fn parse_from_bytes(data: &[u8]) -> (r: Option<Oneshot>)
        ensures
            match r {
                Some(o) => parse_oneshot(data@) == Some(o@),
                None => parse_oneshot(data@) is None,
            },
    {
        let fs = match read_fields(data) {
            Some(fs) => fs,
            None => {
                return None;
            },
        };
        let t = match get_enum_field(&fs, 1, 4) {
            Some(t) => t,
            None => {
                return None;
            },
        };
        let u = match get_bytes_field(&fs, 2) {
            Some(u) => u,
            None => {
                return None;
            },
        };
        let m = match get_bytes_field(&fs, 3) {
            Some(m) => m,
            None => {
                return None;
            },
        };
        Some(Oneshot { field_type: type_from(t), uuid: u, message: m })
    }
}

impl Begin {
    /// The bytes of this frame.
    pub fn write_to_bytes(&self) -> (r: Vec<u8>)
        ensures
            r@ == begin_bytes(self@),
    {
        let mut out: Vec<u8> = Vec::new();
        write_varint_part(&mut out, 1, type_to(self.field_type));
        write_bytes_part(&mut out, 2, self.uuid.as_slice());
        write_varint_part(&mut out, 3, compression_to(self.compression));
        write_varint_part(&mut out, 4, self.length);
        proof {
            let a = varint_part(1, type_number(self.field_type));
            let b = bytes_part(2, self.uuid@);
            let c = varint_part(3, compression_number(self.compression));
            let d = varint_part(4, self.length);
            lemma_fields_bytes_concat(a, b);
            lemma_fields_bytes_concat(a + b, c);
            lemma_fields_bytes_concat(a + b + c, d);
            assert(out@ =~= begin_bytes(self@));
        }
        out
    }

    /// Reads a begin frame.
    pub fn parse_from_bytes(data: &[u8]) -> (r: Option<Begin>)
        ensures
            match r {
                Some(b) => parse_begin(data@) == Some(b@),
                None => parse_begin(data@) is None,
            },
    {
        let fs = match read_fields(data) {
            Some(fs) => fs,
            None => {
                return None;
            },
        };
        let t = match get_enum_field(&fs, 1, 4) {
            Some(t) => t,
            None => {
                return None;
            },
        };
        let u = match get_bytes_field(&fs, 2) {
            Some(u) => u,
            None => {
                return None;
            },
        };
        let c = match get_enum_field(&fs, 3, 2) {
            Some(c) => c,
            None => {
                return None;
            },
        };
        let l = match get_varint_field(&fs, 4) {
            Some(l) => l,
            None => {
                return None;
            },
        };
        Some(Begin { field_type: type_from(t), uuid: u, compression: compression_from(c), length: l })
    }
}

impl Process {
    /// The bytes of this frame.
    pub fn write_to_bytes(&self) -> (r: Vec<u8>)
        ensures
            r@ == process_bytes(self@),
    {
        let mut out: Vec<u8> = Vec::new();
        write_varint_part(&mut out, 1, type_to(self.field_type));
        write_bytes_part(&mut out, 2, self.uuid.as_slice());
        write_varint_part(&mut out, 3, self.seq);
        write_bytes_part(&mut out, 4, self.message.as_slice());
        proof {
            let a = varint_part(1, type_number(self.field_type));
            let b = bytes_part(2, self.uuid@);
            let c = varint_part(3, self.seq);
            let d = bytes_part(4, self.message@);
            lemma_fields_bytes_concat(a, b);
            lemma_fields_bytes_concat(a + b, c);
            lemma_fields_bytes_concat(a + b + c, d);
            assert(out@ =~= process_bytes(self@));
        }
        out
    }

    /// Reads a chunk frame.
    pub fn parse_from_bytes(data: &[u8]) -> (r: Option<Process>)
        ensures
            match r {
                Some(p) => parse_process(data@) == Some(p@),
                None => parse_process(data@) is None,
            },
    {
        let fs = match read_fields(data) {
            Some(fs) => fs,
            None => {
                return None;
            },
        };
        let t = match get_enum_field(&fs, 1, 4) {
            Some(t) => t,
            None => {
                return None;
            },
        };
        let u = match get_bytes_field(&fs, 2) {
            Some(u) => u,
            None => {
                return None;
            },
        };
        let q = match get_varint_field(&fs, 3) {
            Some(q) => q,
            None => {
                return None;
            },
        };
        let m = match get_bytes_field(&fs, 4) {
            Some(m) => m,
            None => {
                return None;
            },
        };
        Some(Process { field_type: type_from(t), uuid: u, seq: q, message: m })
    }
}

impl End {
    /// The bytes of this frame.
    pub fn write_to_bytes(&self) -> (r: Vec<u8>)
        ensures
            r@ == end_bytes(self@),
    {
        let mut out: Vec<u8> = Vec::new();
        write_varint_part(&mut out, 1, type_to(self.field_type));
        write_bytes_part(&mut out, 2, self.uuid.as_slice());
        proof {
            let a = varint_part(1, type_number(self.field_type));
            let b = bytes_part(2, self.uuid@);
            lemma_fields_bytes_concat(a, b);
            assert(out@ =~= end_bytes(self@));
        }
        out
    }

    /// Reads an end frame.
    pub fn parse_from_bytes(data: &[u8]) -> (r: Option<End>)
        ensures
            match r {
                Some(e) => parse_end(data@) == Some(e@),
                None => parse_end(data@) is None,
            },
    {
        let fs = match read_fields(data) {
            Some(fs) => fs,
            None => {
                return None;
            },
        };
        let t = match get_enum_field(&fs, 1, 4) {
            Some(t) => t,
            None => {
                return None;
            },
        };
        let u = match get_bytes_field(&fs, 2) {
            Some(u) => u,
            None => {
                return None;
            },
        };
        Some(End { field_type: type_from(t), uuid: u })
    }
}

} // verus!
