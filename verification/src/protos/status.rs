//! Status codes that a reply can carry.

use super::wire::{
    bytes_field, field_bytes, field_wf, fields_bytes, lemma_fields_bytes_concat,
    lemma_fields_bytes_single, lemma_fields_roundtrip, parse_fields, varint_bytes,
    varint_field, FieldView, WireValueView,
};
use protobuf::descriptor::FileDescriptorProto;
use vstd::prelude::*;

verus! {

#[allow(non_camel_case_types)]
#[derive(Clone, Copy, PartialEq, Eq, Debug, Hash)]
pub enum Status {
    OK,
    NOT_FOUNT,
    UNAUTHORIZED,
    INVALID_TOKEN,
    ACCESS_TOKEN_EXPIRED,
    INTERNAL_ERROR,
}

/// The number that stands for each status on the wire.
pub open spec fn status_value(s: Status) -> i32 {
    match s {
        Status::OK => 200,
        Status::NOT_FOUNT => 404,
        Status::UNAUTHORIZED => 406,
        Status::INVALID_TOKEN => 497,
        Status::ACCESS_TOKEN_EXPIRED => 498,
        Status::INTERNAL_ERROR => 500,
    }
}

/// The status that a number stands for, if any.
pub open spec fn status_of(v: i32) -> Option<Status> {
    if v == 200 {
        Some(Status::OK)
    } else if v == 404 {
        Some(Status::NOT_FOUNT)
    } else if v == 406 {
        Some(Status::UNAUTHORIZED)
    } else if v == 497 {
        Some(Status::INVALID_TOKEN)
    } else if v == 498 {
        Some(Status::ACCESS_TOKEN_EXPIRED)
    } else if v == 500 {
        Some(Status::INTERNAL_ERROR)
    } else {
        None
    }
}

/// Every status, in declaration order.
pub open spec fn all_statuses() -> Seq<Status> {
    seq![
        Status::OK,
        Status::NOT_FOUNT,
        Status::UNAUTHORIZED,
        Status::INVALID_TOKEN,
        Status::ACCESS_TOKEN_EXPIRED,
        Status::INTERNAL_ERROR,
    ]
}

impl Status {
    /// The number of this status.
    pub fn value(&self) -> (r: i32)
        ensures
            r == status_value(*self),
    {
        match self {
            Status::OK => 200,
            Status::NOT_FOUNT => 404,
            Status::UNAUTHORIZED => 406,
            Status::INVALID_TOKEN => 497,
            Status::ACCESS_TOKEN_EXPIRED => 498,
            Status::INTERNAL_ERROR => 500,
        }
    }

    /// The status with the given number, `None` for a number that names none.
    pub fn from_i32(value: i32) -> (r: Option<Status>)
        ensures
            r == status_of(value),
    {
        if value == 200 {
            Some(Status::OK)
        } else if value == 404 {
            Some(Status::NOT_FOUNT)
        } else if value == 406 {
            Some(Status::UNAUTHORIZED)
        } else if value == 497 {
            Some(Status::INVALID_TOKEN)
        } else if value == 498 {
            Some(Status::ACCESS_TOKEN_EXPIRED)
        } else if value == 500 {
            Some(Status::INTERNAL_ERROR)
        } else {
            None
        }
    }

    /// All statuses, in declaration order.
    pub fn values() -> (r: Vec<Status>)
        ensures
            r@ == all_statuses(),
    {
        vec![
            Status::OK,
            Status::NOT_FOUNT,
            Status::UNAUTHORIZED,
            Status::INVALID_TOKEN,
            Status::ACCESS_TOKEN_EXPIRED,
            Status::INTERNAL_ERROR,
        ]
    }
}

impl Default for Status {
    fn default() -> (r: Status)
        ensures
            r == Status::OK,
    {
        Status::OK
    }
}

/// A status's number names that status again.
pub proof fn law_status_value_roundtrip(s: Status)
    ensures
        status_of(status_value(s)) == Some(s),
{
}

/// A number that names a status is that status's number.
pub proof fn law_status_of_inverse(v: i32)
    ensures
        status_of(v) matches Some(s) ==> status_value(s) == v,
{
}

/// Every status occurs exactly once in `values`, and nothing else does.
pub proof fn law_values_complete(s: Status)
    ensures
        all_statuses().contains(s),
        all_statuses().len() == 6,
        all_statuses().no_duplicates(),
{
    let a = all_statuses();
    assert(a[status_index(s)] == s);
}

/// The position of a status in `values`.
pub open spec fn status_index(s: Status) -> int {
    match s {
        Status::OK => 0,
        Status::NOT_FOUNT => 1,
        Status::UNAUTHORIZED => 2,
        Status::INVALID_TOKEN => 3,
        Status::ACCESS_TOKEN_EXPIRED => 4,
        Status::INTERNAL_ERROR => 5,
    }
}

// ---------------------------------------------------------------------------
// The descriptor of the file that declares `Status`
// ---------------------------------------------------------------------------

#[verifier::external_type_specification]
#[verifier::external_body]
pub struct ExFileDescriptorProto(FileDescriptorProto);

/// The serialized `FileDescriptorProto` of `status.proto`.
#[verifier::opaque]
pub open spec fn status_descriptor_bytes() -> Seq<u8> {
    seq![
        10u8, 12u8, 115u8, 116u8, 97u8, 116u8, 117u8, 115u8, 46u8, 112u8, 114u8, 111u8,
        116u8, 111u8, 42u8, 122u8, 10u8, 6u8, 83u8, 116u8, 97u8, 116u8, 117u8, 115u8,
        18u8, 7u8, 10u8, 2u8, 79u8, 75u8, 16u8, 200u8, 1u8, 18u8, 14u8, 10u8,
        9u8, 78u8, 79u8, 84u8, 95u8, 70u8, 79u8, 85u8, 78u8, 84u8, 16u8, 148u8,
        3u8, 18u8, 17u8, 10u8, 12u8, 85u8, 78u8, 65u8, 85u8, 84u8, 72u8, 79u8,
        82u8, 73u8, 90u8, 69u8, 68u8, 16u8, 150u8, 3u8, 18u8, 18u8, 10u8, 13u8,
        73u8, 78u8, 86u8, 65u8, 76u8, 73u8, 68u8, 95u8, 84u8, 79u8, 75u8, 69u8,
        78u8, 16u8, 241u8, 3u8, 18u8, 25u8, 10u8, 20u8, 65u8, 67u8, 67u8, 69u8,
        83u8, 83u8, 95u8, 84u8, 79u8, 75u8, 69u8, 78u8, 95u8, 69u8, 88u8, 80u8,
        73u8, 82u8, 69u8, 68u8, 16u8, 242u8, 3u8, 18u8, 19u8, 10u8, 14u8, 73u8,
        78u8, 84u8, 69u8, 82u8, 78u8, 65u8, 76u8, 95u8, 69u8, 82u8, 82u8, 79u8,
        82u8, 16u8, 244u8, 3u8, 26u8, 0u8, 66u8, 0u8, 98u8, 6u8, 112u8, 114u8,
        111u8, 116u8, 111u8, 51u8,
    ]
}

/// The name each status is declared under: the ASCII bytes of the
/// variant's own name.
pub open spec fn status_name(s: Status) -> Seq<u8> {
    match s {
        Status::OK => seq![79u8, 75u8],
        Status::NOT_FOUNT => seq![78u8, 79u8, 84u8, 95u8, 70u8, 79u8, 85u8, 78u8, 84u8],
        Status::UNAUTHORIZED => seq![
            85u8, 78u8, 65u8, 85u8, 84u8, 72u8, 79u8, 82u8, 73u8, 90u8, 69u8, 68u8,
        ],
        Status::INVALID_TOKEN => seq![
            73u8, 78u8, 86u8, 65u8, 76u8, 73u8, 68u8, 95u8, 84u8, 79u8, 75u8, 69u8, 78u8,
        ],
        Status::ACCESS_TOKEN_EXPIRED => seq![
            65u8, 67u8, 67u8, 69u8, 83u8, 83u8, 95u8, 84u8, 79u8, 75u8, 69u8, 78u8, 95u8, 69u8,
            88u8, 80u8, 73u8, 82u8, 69u8, 68u8,
        ],
        Status::INTERNAL_ERROR => seq![
            73u8, 78u8, 84u8, 69u8, 82u8, 78u8, 65u8, 76u8, 95u8, 69u8, 82u8, 82u8, 79u8, 82u8,
        ],
    }
}

/// The payloads of the length-delimited occurrences of field `n` among
/// `fs`, in order (a repeated field).
pub open spec fn repeated_bytes(fs: Seq<FieldView>, n: u64) -> Seq<Seq<u8>>
    decreases fs.len(),
{
    if fs.len() == 0 {
        seq![]
    } else {
        let rest = repeated_bytes(fs.drop_first(), n);
        if fs[0].number == n {
            match fs[0].value {
                WireValueView::Bytes(b) => seq![b] + rest,
                _ => rest,
            }
        } else {
            rest
        }
    }
}

/// Whether the serialized enum value `v` declares status `s`: its name
/// (field 1) and number (field 2) are those of `s`.
#[verifier::opaque]
pub open spec fn value_declares(v: Seq<u8>, s: Status) -> bool {
    match parse_fields(v) {
        Some(vs) => bytes_field(vs, 1) == Some(status_name(s)) && varint_field(vs, 2) == Some(
            status_value(s) as u64,
        ),
        None => false,
    }
}

/// Whether the serialized enum values `vals` declare the statuses `sts`, in
/// order: value `i` has name (field 1) and number (field 2) of status `i`.
pub open spec fn values_declare(vals: Seq<Seq<u8>>, sts: Seq<Status>) -> bool
    decreases sts.len(),
{
    if sts.len() == 0 {
        vals.len() == 0
    } else {
        &&& vals.len() > 0
        &&& value_declares(vals[0], sts[0])
        &&& values_declare(vals.drop_first(), sts.drop_first())
    }
}

/// Whether `d` is a serialized `FileDescriptorProto` of `status.proto`
/// (field 1) whose one enumeration (field 5) is named `Status` and declares
/// every status, in order, under its name and number.
pub open spec fn declares_status(d: Seq<u8>) -> bool {
    match parse_fields(d) {
        Some(fs) => {
            &&& bytes_field(fs, 1) == Some(
                seq![115u8, 116u8, 97u8, 116u8, 117u8, 115u8, 46u8, 112u8, 114u8, 111u8, 116u8, 111u8],
            )
            &&& match bytes_field(fs, 5) {
                Some(e) => match parse_fields(e) {
                    Some(es) => bytes_field(es, 1) == Some(
                        seq![83u8, 116u8, 97u8, 116u8, 117u8, 115u8],
                    ) && values_declare(repeated_bytes(es, 2), all_statuses()),
                    None => false,
                },
                None => false,
            }
        },
        None => false,
    }
}

/// A length-delimited field.
spec fn bytes_at(n: u64, b: Seq<u8>) -> FieldView {
    FieldView { number: n, value: WireValueView::Bytes(b) }
}

/// The fields of the serialized value that declares status `s`.
spec fn value_fields(s: Status) -> Seq<FieldView> {
    seq![
        bytes_at(1, status_name(s)),
        FieldView { number: 2, value: WireValueView::Varint(status_value(s) as u64) },
    ]
}

/// The serialized value that declares status `s`.
#[verifier::opaque]
spec fn value_bytes(s: Status) -> Seq<u8> {
    fields_bytes(value_fields(s))
}

/// The fields of the serialized enumeration `Status`.
#[verifier::opaque]
spec fn status_enum_fields() -> Seq<FieldView> {
    seq![
        bytes_at(1, seq![83u8, 116u8, 97u8, 116u8, 117u8, 115u8]),
        bytes_at(2, value_bytes(Status::OK)),
        bytes_at(2, value_bytes(Status::NOT_FOUNT)),
        bytes_at(2, value_bytes(Status::UNAUTHORIZED)),
        bytes_at(2, value_bytes(Status::INVALID_TOKEN)),
        bytes_at(2, value_bytes(Status::ACCESS_TOKEN_EXPIRED)),
        bytes_at(2, value_bytes(Status::INTERNAL_ERROR)),
        bytes_at(3, seq![]),
    ]
}

/// The fields of the serialized file descriptor.
spec fn status_file_fields() -> Seq<FieldView> {
    seq![
        bytes_at(1, seq![115u8, 116u8, 97u8, 116u8, 117u8, 115u8, 46u8, 112u8, 114u8, 111u8, 116u8, 111u8]),
        bytes_at(5, fields_bytes(status_enum_fields())),
        bytes_at(8, seq![]),
        bytes_at(12, seq![112u8, 114u8, 111u8, 116u8, 111u8, 51u8]),
    ]
}

proof fn lemma_value_roundtrip(s: Status)
    ensures
        parse_fields(value_bytes(s)) == Some(value_fields(s)),
        value_bytes(s).len() < 128,
{
    reveal(value_bytes);
    let fs = value_fields(s);
    assert(field_wf(fs[0]) && field_wf(fs[1]));
    lemma_fields_roundtrip(fs);
    reveal_with_fuel(fields_bytes, 3);
    reveal_with_fuel(varint_bytes, 3);
}

#[verifier::spinoff_prover]
#[verifier::rlimit(50)]
proof fn lemma_value_encoded_ok()
    ensures
        value_bytes(Status::OK) == status_descriptor_bytes().subrange(26, 33),
{
    reveal(status_descriptor_bytes);
    reveal(value_bytes);
    reveal_with_fuel(varint_bytes, 3);
    reveal_with_fuel(fields_bytes, 3);
    assert(value_bytes(Status::OK) =~= status_descriptor_bytes().subrange(26, 33));
}

#[verifier::spinoff_prover]
#[verifier::rlimit(50)]
proof fn lemma_value_encoded_not_fount()
    ensures
        value_bytes(Status::NOT_FOUNT) == status_descriptor_bytes().subrange(35, 49),
{
    reveal(status_descriptor_bytes);
    reveal(value_bytes);
    reveal_with_fuel(varint_bytes, 3);
    reveal_with_fuel(fields_bytes, 3);
    assert(value_bytes(Status::NOT_FOUNT) =~= status_descriptor_bytes().subrange(35, 49));
}

#[verifier::spinoff_prover]
#[verifier::rlimit(50)]
proof fn lemma_value_encoded_unauthorized()
    ensures
        value_bytes(Status::UNAUTHORIZED) == status_descriptor_bytes().subrange(51, 68),
{
    reveal(status_descriptor_bytes);
    reveal(value_bytes);
    reveal_with_fuel(varint_bytes, 3);
    reveal_with_fuel(fields_bytes, 3);
    assert(value_bytes(Status::UNAUTHORIZED) =~= status_descriptor_bytes().subrange(51, 68));
}

#[verifier::spinoff_prover]
#[verifier::rlimit(50)]
proof fn lemma_value_encoded_invalid_token()
    ensures
        value_bytes(Status::INVALID_TOKEN) == status_descriptor_bytes().subrange(70, 88),
{
    reveal(status_descriptor_bytes);
    reveal(value_bytes);
    reveal_with_fuel(varint_bytes, 3);
    reveal_with_fuel(fields_bytes, 3);
    assert(value_bytes(Status::INVALID_TOKEN) =~= status_descriptor_bytes().subrange(70, 88));
}

#[verifier::spinoff_prover]
#[verifier::rlimit(50)]
proof fn lemma_value_encoded_access_token_expired()
    ensures
        value_bytes(Status::ACCESS_TOKEN_EXPIRED) == status_descriptor_bytes().subrange(90, 115),
{
    reveal(status_descriptor_bytes);
    reveal(value_bytes);
    reveal_with_fuel(varint_bytes, 3);
    reveal_with_fuel(fields_bytes, 3);
    assert(value_bytes(Status::ACCESS_TOKEN_EXPIRED) =~= status_descriptor_bytes().subrange(90, 115));
}

#[verifier::spinoff_prover]
#[verifier::rlimit(50)]
proof fn lemma_value_encoded_internal_error()
    ensures
        value_bytes(Status::INTERNAL_ERROR) == status_descriptor_bytes().subrange(117, 136),
{
    reveal(status_descriptor_bytes);
    reveal(value_bytes);
    reveal_with_fuel(varint_bytes, 3);
    reveal_with_fuel(fields_bytes, 3);
    assert(value_bytes(Status::INTERNAL_ERROR) =~= status_descriptor_bytes().subrange(117, 136));
}

proof fn lemma_values_encoded()
    ensures
        value_bytes(Status::OK) == status_descriptor_bytes().subrange(26, 33),
        value_bytes(Status::NOT_FOUNT) == status_descriptor_bytes().subrange(35, 49),
        value_bytes(Status::UNAUTHORIZED) == status_descriptor_bytes().subrange(51, 68),
        value_bytes(Status::INVALID_TOKEN) == status_descriptor_bytes().subrange(70, 88),
        value_bytes(Status::ACCESS_TOKEN_EXPIRED) == status_descriptor_bytes().subrange(90, 115),
        value_bytes(Status::INTERNAL_ERROR) == status_descriptor_bytes().subrange(117, 136),
{
    lemma_value_encoded_ok();
    lemma_value_encoded_not_fount();
    lemma_value_encoded_unauthorized();
    lemma_value_encoded_invalid_token();
    lemma_value_encoded_access_token_expired();
    lemma_value_encoded_internal_error();
}

#[verifier::spinoff_prover]
#[verifier::rlimit(50)]
proof fn lemma_enum_encoded()
    ensures
        fields_bytes(status_enum_fields()) == status_descriptor_bytes().subrange(16, 138),
        fields_bytes(status_enum_fields()).len() == 122,
{
    reveal(status_enum_fields);
    reveal(status_descriptor_bytes);
    let d = status_descriptor_bytes();
    lemma_values_encoded();
    let es = status_enum_fields();
    assert(es =~= seq![es[0]] + seq![es[1]] + seq![es[2]] + seq![es[3]] + seq![es[4]] + seq![es[5]]
        + seq![es[6]] + seq![es[7]]);
    reveal_with_fuel(varint_bytes, 3);
    lemma_fields_bytes_concat(seq![es[0]], seq![es[1]]);
    lemma_fields_bytes_concat(seq![es[0]] + seq![es[1]], seq![es[2]]);
    lemma_fields_bytes_concat(seq![es[0]] + seq![es[1]] + seq![es[2]], seq![es[3]]);
    lemma_fields_bytes_concat(seq![es[0]] + seq![es[1]] + seq![es[2]] + seq![es[3]], seq![es[4]]);
    lemma_fields_bytes_concat(
        seq![es[0]] + seq![es[1]] + seq![es[2]] + seq![es[3]] + seq![es[4]],
        seq![es[5]],
    );
    lemma_fields_bytes_concat(
        seq![es[0]] + seq![es[1]] + seq![es[2]] + seq![es[3]] + seq![es[4]] + seq![es[5]],
        seq![es[6]],
    );
    lemma_fields_bytes_concat(
        seq![es[0]] + seq![es[1]] + seq![es[2]] + seq![es[3]] + seq![es[4]] + seq![es[5]] + seq![
            es[6],
        ],
        seq![es[7]],
    );
    lemma_fields_bytes_single(es[0]);
    lemma_fields_bytes_single(es[1]);
    lemma_fields_bytes_single(es[2]);
    lemma_fields_bytes_single(es[3]);
    lemma_fields_bytes_single(es[4]);
    lemma_fields_bytes_single(es[5]);
    lemma_fields_bytes_single(es[6]);
    lemma_fields_bytes_single(es[7]);
    assert(field_bytes(es[0]) =~= d.subrange(16, 24));
    assert(field_bytes(es[1]) =~= d.subrange(24, 33));
    assert(field_bytes(es[2]) =~= d.subrange(33, 49));
    assert(field_bytes(es[3]) =~= d.subrange(49, 68));
    assert(field_bytes(es[4]) =~= d.subrange(68, 88));
    assert(field_bytes(es[5]) =~= d.subrange(88, 115));
    assert(field_bytes(es[6]) =~= d.subrange(115, 136));
    assert(field_bytes(es[7]) =~= d.subrange(136, 138));
    assert(fields_bytes(es) =~= d.subrange(16, 138));
}

#[verifier::spinoff_prover]
#[verifier::rlimit(50)]
proof fn lemma_file_encoded()
    ensures
        fields_bytes(status_file_fields()) == status_descriptor_bytes(),
{
    reveal(status_descriptor_bytes);
    let d = status_descriptor_bytes();
    lemma_enum_encoded();
    let fs = status_file_fields();
    assert(fs =~= seq![fs[0]] + seq![fs[1]] + seq![fs[2]] + seq![fs[3]]);
    reveal_with_fuel(varint_bytes, 3);
    lemma_fields_bytes_concat(seq![fs[0]], seq![fs[1]]);
    lemma_fields_bytes_concat(seq![fs[0]] + seq![fs[1]], seq![fs[2]]);
    lemma_fields_bytes_concat(seq![fs[0]] + seq![fs[1]] + seq![fs[2]], seq![fs[3]]);
    lemma_fields_bytes_single(fs[0]);
    lemma_fields_bytes_single(fs[1]);
    lemma_fields_bytes_single(fs[2]);
    lemma_fields_bytes_single(fs[3]);
    assert(field_bytes(fs[0]) =~= d.subrange(0, 14));
    assert(field_bytes(fs[1]) =~= d.subrange(14, 138));
    assert(field_bytes(fs[2]) =~= d.subrange(138, 140));
    assert(field_bytes(fs[3]) =~= d.subrange(140, 148));
    assert(fields_bytes(fs) =~= d);
}

spec fn value_bytes_all() -> Seq<Seq<u8>> {
    seq![
        value_bytes(Status::OK),
        value_bytes(Status::NOT_FOUNT),
        value_bytes(Status::UNAUTHORIZED),
        value_bytes(Status::INVALID_TOKEN),
        value_bytes(Status::ACCESS_TOKEN_EXPIRED),
        value_bytes(Status::INTERNAL_ERROR),
    ]
}

proof fn lemma_file_fields_read()
    ensures
        bytes_field(status_file_fields(), 1) == Some(
            seq![115u8, 116u8, 97u8, 116u8, 117u8, 115u8, 46u8, 112u8, 114u8, 111u8, 116u8, 111u8],
        ),
        bytes_field(status_file_fields(), 5) == Some(fields_bytes(status_enum_fields())),
{
    let fs = status_file_fields();
    assert(fs.drop_last().drop_last().drop_last().drop_last() =~= Seq::<FieldView>::empty());
    assert(fs.drop_last().drop_last().drop_last() =~= seq![fs[0]]);
    assert(fs.drop_last().drop_last() =~= seq![fs[0], fs[1]]);
    assert(fs.drop_last() =~= seq![fs[0], fs[1], fs[2]]);
    reveal_with_fuel(bytes_field, 5);
}

#[verifier::spinoff_prover]
#[verifier::rlimit(50)]
proof fn lemma_enum_fields_read()
    ensures
        bytes_field(status_enum_fields(), 1) == Some(seq![83u8, 116u8, 97u8, 116u8, 117u8, 115u8]),
        repeated_bytes(status_enum_fields(), 2) == value_bytes_all(),
{
    reveal(status_enum_fields);
    let es = status_enum_fields();
    assert(es.subrange(0, 1) =~= seq![es[0]]);
    assert forall|j: int| 1 <= j <= 8 implies #[trigger] es.subrange(0, j).drop_last()
        == es.subrange(0, j - 1) by {
        assert(es.subrange(0, j).drop_last() =~= es.subrange(0, j - 1));
    }
    assert(es.subrange(0, 8) =~= es);
    assert(es.subrange(0, 0) =~= Seq::<FieldView>::empty());
    reveal_with_fuel(bytes_field, 9);
    assert(bytes_field(es, 1) == bytes_field(es.subrange(0, 1), 1));
    assert forall|j: int| 0 <= j <= 7 implies #[trigger] es.subrange(j, 8).drop_first()
        == es.subrange(j + 1, 8) by {
        assert(es.subrange(j, 8).drop_first() =~= es.subrange(j + 1, 8));
    }
    assert(es.subrange(8, 8) =~= Seq::<FieldView>::empty());
    reveal_with_fuel(repeated_bytes, 2);
    assert(repeated_bytes(es.subrange(7, 8), 2) =~= Seq::<Seq<u8>>::empty());
    assert(repeated_bytes(es.subrange(6, 8), 2) =~= value_bytes_all().subrange(5, 6));
    assert(repeated_bytes(es.subrange(5, 8), 2) =~= value_bytes_all().subrange(4, 6));
    assert(repeated_bytes(es.subrange(4, 8), 2) =~= value_bytes_all().subrange(3, 6));
    assert(repeated_bytes(es.subrange(3, 8), 2) =~= value_bytes_all().subrange(2, 6));
    assert(repeated_bytes(es.subrange(2, 8), 2) =~= value_bytes_all().subrange(1, 6));
    assert(repeated_bytes(es.subrange(1, 8), 2) =~= value_bytes_all());
    assert(repeated_bytes(es.subrange(0, 8), 2) =~= value_bytes_all());
}

proof fn lemma_value_read(s: Status)
    ensures
        value_declares(value_bytes(s), s),
{
    reveal(value_declares);
    lemma_value_roundtrip(s);
    let vs = value_fields(s);
    assert(vs.drop_last() =~= seq![vs[0]]);
    assert(vs.drop_last().drop_last() =~= Seq::<FieldView>::empty());
    reveal_with_fuel(bytes_field, 3);
    reveal_with_fuel(varint_field, 3);
}

#[verifier::spinoff_prover]
#[verifier::rlimit(50)]
proof fn lemma_values_declared()
    ensures
        values_declare(value_bytes_all(), all_statuses()),
{
    let v = value_bytes_all();
    let a = all_statuses();
    lemma_value_read(Status::OK);
    lemma_value_read(Status::NOT_FOUNT);
    lemma_value_read(Status::UNAUTHORIZED);
    lemma_value_read(Status::INVALID_TOKEN);
    lemma_value_read(Status::ACCESS_TOKEN_EXPIRED);
    lemma_value_read(Status::INTERNAL_ERROR);
    assert(values_declare(v.subrange(6, 6), a.subrange(6, 6)));
    assert forall|j: int| 0 <= j <= 5 implies #[trigger] v.subrange(j, 6).drop_first() == v.subrange(
        j + 1,
        6,
    ) && a.subrange(j, 6).drop_first() == a.subrange(j + 1, 6) by {
        assert(v.subrange(j, 6).drop_first() =~= v.subrange(j + 1, 6));
        assert(a.subrange(j, 6).drop_first() =~= a.subrange(j + 1, 6));
    }
    assert(values_declare(v.subrange(5, 6), a.subrange(5, 6)));
    assert(values_declare(v.subrange(4, 6), a.subrange(4, 6)));
    assert(values_declare(v.subrange(3, 6), a.subrange(3, 6)));
    assert(values_declare(v.subrange(2, 6), a.subrange(2, 6)));
    assert(values_declare(v.subrange(1, 6), a.subrange(1, 6)));
    assert(values_declare(v.subrange(0, 6), a.subrange(0, 6)));
    assert(v.subrange(0, 6) =~= v);
    assert(a.subrange(0, 6) =~= a);
}

#[verifier::spinoff_prover]
#[verifier::rlimit(50)]
proof fn lemma_enum_wf()
    ensures
        status_enum_fields().len() == 8,
        forall|i: int| 0 <= i < 8 ==> field_wf(#[trigger] status_enum_fields()[i]),
{
    reveal(status_enum_fields);
    let es = status_enum_fields();
    lemma_value_roundtrip(Status::OK);
    lemma_value_roundtrip(Status::NOT_FOUNT);
    lemma_value_roundtrip(Status::UNAUTHORIZED);
    lemma_value_roundtrip(Status::INVALID_TOKEN);
    lemma_value_roundtrip(Status::ACCESS_TOKEN_EXPIRED);
    lemma_value_roundtrip(Status::INTERNAL_ERROR);
    assert(field_wf(es[0]) && field_wf(es[1]) && field_wf(es[2]) && field_wf(es[3]));
    assert(field_wf(es[4]) && field_wf(es[5]) && field_wf(es[6]) && field_wf(es[7]));
    assert forall|i: int| 0 <= i < 8 implies field_wf(#[trigger] es[i]) by {
        if i == 0 {} else if i == 1 {} else if i == 2 {} else if i == 3 {} else if i == 4 {
        } else if i == 5 {} else if i == 6 {} else {}
    }
}

proof fn lemma_enum_parsed()
    ensures
        parse_fields(fields_bytes(status_enum_fields())) == Some(status_enum_fields()),
        fields_bytes(status_enum_fields()).len() == 122,
{
    lemma_enum_encoded();
    lemma_enum_wf();
    lemma_fields_roundtrip(status_enum_fields());
}

proof fn lemma_file_parsed()
    ensures
        parse_fields(status_descriptor_bytes()) == Some(status_file_fields()),
{
    lemma_file_encoded();
    lemma_enum_parsed();
    let fs = status_file_fields();
    assert forall|i: int| 0 <= i < fs.len() implies field_wf(#[trigger] fs[i]) by {}
    lemma_fields_roundtrip(fs);
}

/// The descriptor that `file_descriptor_proto` parses declares the enum
/// `Status` exactly as the library has it: every status, in declaration
/// order, under its name and with its number.
pub proof fn law_descriptor_declares_status()
    ensures
        declares_status(status_descriptor_bytes()),
{
    lemma_file_parsed();
    lemma_enum_parsed();
    lemma_file_fields_read();
    lemma_enum_fields_read();
    lemma_values_declared();
}

/// What protobuf's `parse_from_bytes` reads out of `data` as a
/// `FileDescriptorProto`: the descriptor, or `None` where the bytes do not
/// parse.
pub uninterp spec fn parsed_descriptor(data: Seq<u8>) -> Option<FileDescriptorProto>;

/// Calls `protobuf::Message::parse_from_bytes` for `FileDescriptorProto`:
/// its result, a function of the bytes alone, is the one named
/// `parsed_descriptor`. What the descriptor holds is not spelled out.
#[verifier::external_body]
fn parse_file_descriptor(data: &[u8]) -> (r: Option<FileDescriptorProto>)
    ensures
        r == parsed_descriptor(data@),
{
    <FileDescriptorProto as protobuf::Message>::parse_from_bytes(data).ok()
}

fn file_descriptor_proto_data() -> (r: Vec<u8>)
    ensures
        r@ == status_descriptor_bytes(),
{
    let r: Vec<u8> = vec![
        10, 12, 115, 116, 97, 116, 117, 115, 46, 112, 114, 111,
        116, 111, 42, 122, 10, 6, 83, 116, 97, 116, 117, 115,
        18, 7, 10, 2, 79, 75, 16, 200, 1, 18, 14, 10,
        9, 78, 79, 84, 95, 70, 79, 85, 78, 84, 16, 148,
        3, 18, 17, 10, 12, 85, 78, 65, 85, 84, 72, 79,
        82, 73, 90, 69, 68, 16, 150, 3, 18, 18, 10, 13,
        73, 78, 86, 65, 76, 73, 68, 95, 84, 79, 75, 69,
        78, 16, 241, 3, 18, 25, 10, 20, 65, 67, 67, 69,
        83, 83, 95, 84, 79, 75, 69, 78, 95, 69, 88, 80,
        73, 82, 69, 68, 16, 242, 3, 18, 19, 10, 14, 73,
        78, 84, 69, 82, 78, 65, 76, 95, 69, 82, 82, 79,
        82, 16, 244, 3, 26, 0, 66, 0, 98, 6, 112, 114,
        111, 116, 111, 51,
    ];
    reveal(status_descriptor_bytes);
    assert(r@ =~= status_descriptor_bytes());
    r
}

/// The descriptor of `status.proto`, parsed from its serialized form.
pub fn parse_descriptor_proto() -> (r: Option<FileDescriptorProto>)
    ensures
        r == parsed_descriptor(status_descriptor_bytes()),
{
    let data = file_descriptor_proto_data();
    parse_file_descriptor(data.as_slice())
}

/// The descriptor of the file that declares `Status`.
pub fn file_descriptor_proto() -> (r: Option<FileDescriptorProto>)
    ensures
        r == parsed_descriptor(status_descriptor_bytes()),
{
    parse_descriptor_proto()
}

} // verus!
