//! The protobuf wire format that frames are written in: base-128 varints,
//! tagged fields, and the rules by which a message's fields are read back.

use vstd::prelude::*;
use vstd::slice::{slice_subrange, slice_to_vec};

verus! {

// ---------------------------------------------------------------------------
// Varints
// ---------------------------------------------------------------------------

/// `128` raised to the power `k`.
pub open spec fn pow128(k: nat) -> nat
    decreases k,
{
    if k == 0 {
        1
    } else {
        128 * pow128((k - 1) as nat)
    }
}

/// The base-128 encoding of `v`: seven bits per byte, least significant
/// group first, the high bit set on every byte but the last.
pub open spec fn varint_bytes(v: nat) -> Seq<u8>
    decreases v,
{
    if v < 128 {
        seq![v as u8]
    } else {
        seq![((v % 128) + 128) as u8] + varint_bytes(v / 128)
    }
}

/// The value and length of the varint at the front of `s`, reading at most
/// `fuel` bytes.
pub open spec fn varint_prefix(s: Seq<u8>, fuel: nat) -> Option<(nat, nat)>
    decreases fuel,
{
    if fuel == 0 || s.len() == 0 {
        None
    } else if s[0] < 128 {
        Some((s[0] as nat, 1))
    } else {
        match varint_prefix(s.drop_first(), (fuel - 1) as nat) {
            Some((v, n)) => Some((((s[0] - 128) + 128 * v) as nat, n + 1)),
            None => None,
        }
    }
}

/// The varint at the front of `s`: at most ten bytes, read as a 64-bit value
/// (bits beyond the 64th are dropped).
pub open spec fn parse_varint(s: Seq<u8>) -> Option<(u64, nat)> {
    match varint_prefix(s, 10) {
        Some((v, n)) => Some(((v % 0x1_0000_0000_0000_0000) as u64, n)),
        None => None,
    }
}

/// A tag or a length as it is read: the varint's low 32 bits.
pub open spec fn low32(v: u64) -> u64 {
    v % 0x1_0000_0000
}

proof fn lemma_pow128_nine()
    ensures
        pow128(9) == 0x8000_0000_0000_0000,
{
    reveal_with_fuel(pow128, 11);
}

proof fn lemma_pow128_monotone(i: nat, j: nat)
    requires
        i <= j,
    ensures
        pow128(i) <= pow128(j),
    decreases j - i,
{
    if i < j {
        lemma_pow128_monotone(i, (j - 1) as nat);
    }
}

/// A value below `128^k` takes at most `k` bytes.
proof fn lemma_varint_len_bound(v: nat, k: nat)
    requires
        v < pow128(k),
        k >= 1,
    ensures
        varint_bytes(v).len() <= k,
        varint_bytes(v).len() >= 1,
    decreases v,
{
    if v >= 128 {
        let p = pow128((k - 1) as nat);
        assert(pow128(k) == 128 * p);
        assert(k >= 2) by {
            if k == 1 {
                assert(pow128(0) == 1);
            }
        }
        assert(v / 128 < p);
        lemma_varint_len_bound(v / 128, (k - 1) as nat);
        assert(varint_bytes(v).len() == 1 + varint_bytes(v / 128).len());
    } else {
        assert(varint_bytes(v) == seq![v as u8]);
    }
}

/// Every 64-bit value encodes in one to ten bytes.
pub proof fn lemma_varint_len_u64(v: u64)
    ensures
        1 <= varint_bytes(v as nat).len() <= 10,
{
    lemma_pow128_nine();
    lemma_varint_len_bound(v as nat, 10);
}

/// Reading the varint back from its encoding, whatever follows it, gives the
/// value and the encoding's length.
pub proof fn lemma_varint_prefix_roundtrip(v: nat, rest: Seq<u8>, fuel: nat)
    requires
        varint_bytes(v).len() <= fuel,
    ensures
        varint_prefix(varint_bytes(v) + rest, fuel) == Some((v, varint_bytes(v).len())),
    decreases v,
{
    let s = varint_bytes(v) + rest;
    if v < 128 {
        assert(s[0] == v as u8);
    } else {
        let tail = varint_bytes(v / 128);
        assert(s.drop_first() =~= tail + rest);
        lemma_varint_prefix_roundtrip(v / 128, rest, (fuel - 1) as nat);
        assert(s[0] == ((v % 128) + 128) as u8);
    }
}

/// The wire varint reader gives back a 64-bit value from its encoding.
pub proof fn lemma_parse_varint_roundtrip(v: u64, rest: Seq<u8>)
    ensures
        parse_varint(varint_bytes(v as nat) + rest) == Some((v, varint_bytes(v as nat).len())),
{
    lemma_varint_len_u64(v);
    lemma_varint_prefix_roundtrip(v as nat, rest, 10);
}

proof fn lemma_mul_step(acc: int, mult: int, d: int, v: int)
    by (nonlinear_arith)
    ensures
        acc + mult * (d + 128 * v) == (acc + mult * d) + (mult * 128) * v,
{
}

proof fn lemma_mul_bound(mult: int, d: int)
    by (nonlinear_arith)
    requires
        0 <= mult,
        0 <= d <= 127,
    ensures
        mult * d <= mult * 127,
        mult * d >= 0,
{
}

/// Appends the varint encoding of `v`.
pub fn write_varint(out: &mut Vec<u8>, v: u64)
    ensures
        final(out)@ == old(out)@ + varint_bytes(v as nat),
{
    let mut x: u64 = v;
    while x >= 128
        invariant
            out@ + varint_bytes(x as nat) == old(out)@ + varint_bytes(v as nat),
        decreases x,
    {
        let ghost before = out@;
        out.push((x % 128 + 128) as u8);
        assert(varint_bytes(x as nat) == seq![((x % 128) + 128) as u8] + varint_bytes(
            (x / 128) as nat,
        ));
        assert(out@ + varint_bytes((x / 128) as nat) =~= before + varint_bytes(x as nat));
        x = x / 128;
    }
    out.push(x as u8);
    assert(varint_bytes(x as nat) == seq![x as u8]);
    assert(out@ =~= old(out)@ + varint_bytes(v as nat));
}

/// Reads the varint that starts at `pos`: its value and the position after it.
pub fn read_varint(data: &[u8], pos: usize) -> (r: Option<(u64, usize)>)
    requires
        pos <= data@.len(),
    ensures
        match r {
            Some((v, end)) => pos < end <= data@.len() && parse_varint(data@.skip(pos as int)) == Some(
                (v, (end - pos) as nat),
            ),
            None => parse_varint(data@.skip(pos as int)) is None,
        },
{
    let ghost s = data@.skip(pos as int);
    let len = data.len();
    let mut i: usize = 0;
    let mut acc: u128 = 0;
    let mut mult: u128 = 1;
    proof {
        lemma_pow128_nine();
        assert(s.skip(0) =~= s);
    }
    while i < 10
        invariant
            len == data@.len(),
            s == data@.skip(pos as int),
            pos <= len,
            i <= 10,
            i <= s.len(),
            mult == pow128(i as nat),
            pow128(9) == 0x8000_0000_0000_0000,
            acc < mult,
            varint_prefix(s, 10) == match varint_prefix(s.skip(i as int), (10 - i) as nat) {
                Some((v, n)) => Some(((acc + mult * v) as nat, (i + n) as nat)),
                None => None::<(nat, nat)>,
            },
        decreases 10 - i,
    {
        proof {
            lemma_pow128_monotone(i as nat, 9);
        }
        if i >= len - pos {
            assert(s.skip(i as int).len() == 0);
            return None;
        }
        let b = data[pos + i];
        let ghost t = s.skip(i as int);
        assert(t[0] == b);
        if b < 128 {
            proof {
                lemma_mul_bound(mult as int, b as int);
            }
            let value: u128 = acc + mult * (b as u128);
            return Some(((value % 0x1_0000_0000_0000_0000) as u64, pos + i + 1));
        }
        proof {
            lemma_mul_bound(mult as int, (b - 128) as int);
            assert(t.drop_first() =~= s.skip(i + 1));
            match varint_prefix(s.skip(i + 1), (10 - i - 1) as nat) {
                Some((v, n)) => {
                    lemma_mul_step(acc as int, mult as int, (b - 128) as int, v as int);
                },
                None => {},
            }
        }
        acc = acc + mult * ((b - 128) as u128);
        mult = mult * 128;
        i = i + 1;
    }
    None
}

// ---------------------------------------------------------------------------
// Fields
// ---------------------------------------------------------------------------

/// The payload of a field, by wire type.
pub ghost enum WireValueView {
    Varint(u64),
    Fixed64(Seq<u8>),
    Bytes(Seq<u8>),
    Fixed32(Seq<u8>),
    /// A group of an unknown field, passed over.
    Group,
}

/// A tagged field: its number and its payload.
pub ghost struct FieldView {
    pub number: u64,
    pub value: WireValueView,
}

/// The wire type that stands in a field's tag.
pub open spec fn wire_type(v: WireValueView) -> u64 {
    match v {
        WireValueView::Varint(_) => 0,
        WireValueView::Fixed64(_) => 1,
        WireValueView::Bytes(_) => 2,
        WireValueView::Fixed32(_) => 5,
        WireValueView::Group => 3,
    }
}

/// A field that can be written and read back: a number from 1 on whose tag
/// fits in 32 bits, fixed payloads of their width, and a length-delimited
/// payload whose length fits in 32 bits.
pub open spec fn field_wf(f: FieldView) -> bool {
    &&& 1 <= f.number
    &&& f.number * 8 + 7 <= u32::MAX
    &&& match f.value {
        WireValueView::Varint(_) => true,
        WireValueView::Fixed64(b) => b.len() == 8,
        WireValueView::Bytes(b) => b.len() <= u32::MAX,
        WireValueView::Fixed32(b) => b.len() == 4,
        WireValueView::Group => false,
    }
}

/// The encoding of a field: its tag (number times eight plus wire type),
/// then its payload, a length-delimited payload preceded by its length.
pub open spec fn field_bytes(f: FieldView) -> Seq<u8> {
    varint_bytes((f.number * 8 + wire_type(f.value)) as nat) + match f.value {
        WireValueView::Varint(v) => varint_bytes(v as nat),
        WireValueView::Fixed64(b) => b,
        WireValueView::Bytes(b) => varint_bytes(b.len()) + b,
        WireValueView::Fixed32(b) => b,
        WireValueView::Group => seq![],
    }
}

/// The encoding of a sequence of fields, one after the other.
pub open spec fn fields_bytes(fs: Seq<FieldView>) -> Seq<u8>
    decreases fs.len(),
{
    if fs.len() == 0 {
        seq![]
    } else {
        field_bytes(fs[0]) + fields_bytes(fs.drop_first())
    }
}

/// The length of a payload of wire type `wt` (other than a group) at the
/// front of `rest`.
pub open spec fn payload_len(rest: Seq<u8>, wt: u64) -> Option<nat> {
    if wt == 0 {
        match parse_varint(rest) {
            Some((v, m)) => Some(m),
            None => None,
        }
    } else if wt == 1 {
        if rest.len() >= 8 {
            Some(8)
        } else {
            None
        }
    } else if wt == 2 {
        match parse_varint(rest) {
            Some((l, m)) => if m + low32(l) <= rest.len() {
                Some((m + low32(l)) as nat)
            } else {
                None
            },
            None => None,
        }
    } else if wt == 5 {
        if rest.len() >= 4 {
            Some(4)
        } else {
            None
        }
    } else {
        None
    }
}

/// The length of the body of a group at the front of `s`, its end tag
/// included: fields with plain payloads, up to the first end-group tag. A
/// group nested inside is not read.
pub open spec fn group_body_len(s: Seq<u8>) -> Option<nat>
    decreases s.len(),
{
    match parse_varint(s) {
        None => None,
        Some((t, n)) => if low32(t) / 8 == 0 || n == 0 || n > s.len() {
            None
        } else if low32(t) % 8 == 4 {
            Some(n)
        } else {
            match payload_len(s.skip(n as int), low32(t) % 8) {
                Some(m) => if n + m <= s.len() {
                    match group_body_len(s.skip((n + m) as int)) {
                        Some(k) => Some(n + m + k),
                        None => None,
                    }
                } else {
                    None
                },
                None => None,
            }
        },
    }
}

/// The field at the front of `s` and the number of bytes it takes. A group
/// is passed over as a whole.
pub open spec fn parse_field(s: Seq<u8>) -> Option<(FieldView, nat)> {
    match parse_varint(s) {
        None => None,
        Some((t, n)) => {
            let number = low32(t) / 8;
            let wt = low32(t) % 8;
            let rest = s.skip(n as int);
            if number == 0 {
                None
            } else if wt == 0 {
                match parse_varint(rest) {
                    Some((v, m)) => Some(
                        (FieldView { number, value: WireValueView::Varint(v) }, n + m),
                    ),
                    None => None,
                }
            } else if wt == 1 {
                if rest.len() >= 8 {
                    Some(
                        (
                            FieldView { number, value: WireValueView::Fixed64(rest.take(8)) },
                            n + 8,
                        ),
                    )
                } else {
                    None
                }
            } else if wt == 2 {
                match parse_varint(rest) {
                    Some((l, m)) => if m + low32(l) <= rest.len() {
                        Some(
                            (
                                FieldView {
                                    number,
                                    value: WireValueView::Bytes(
                                        rest.subrange(m as int, (m + low32(l)) as int),
                                    ),
                                },
                                (n + m + low32(l)) as nat,
                            ),
                        )
                    } else {
                        None
                    },
                    None => None,
                }
            } else if wt == 3 {
                match group_body_len(rest) {
                    Some(k) => Some((FieldView { number, value: WireValueView::Group }, n + k)),
                    None => None,
                }
            } else if wt == 5 {
                if rest.len() >= 4 {
                    Some(
                        (
                            FieldView { number, value: WireValueView::Fixed32(rest.take(4)) },
                            n + 4,
                        ),
                    )
                } else {
                    None
                }
            } else {
                None
            }
        },
    }
}

/// All the fields of `s`, or `None` where `s` does not split into fields.
pub open spec fn parse_fields(s: Seq<u8>) -> Option<Seq<FieldView>>
    decreases s.len(),
{
    if s.len() == 0 {
        Some(seq![])
    } else {
        match parse_field(s) {
            Some((f, n)) => if 0 < n <= s.len() {
                match parse_fields(s.skip(n as int)) {
                    Some(fs) => Some(seq![f] + fs),
                    None => None,
                }
            } else {
                None
            },
            None => None,
        }
    }
}

/// Reading a field back from its encoding, whatever follows it, gives the
/// field and the encoding's length.
pub proof fn lemma_field_roundtrip(f: FieldView, rest: Seq<u8>)
    requires
        field_wf(f),
    ensures
        parse_field(field_bytes(f) + rest) == Some((f, field_bytes(f).len())),
{
    let tag = (f.number * 8 + wire_type(f.value)) as u64;
    let tb = varint_bytes(tag as nat);
    let payload = match f.value {
        WireValueView::Varint(v) => varint_bytes(v as nat),
        WireValueView::Fixed64(b) => b,
        WireValueView::Bytes(b) => varint_bytes(b.len()) + b,
        WireValueView::Fixed32(b) => b,
        WireValueView::Group => seq![],
    };
    let s = field_bytes(f) + rest;
    assert(s =~= tb + (payload + rest));
    lemma_parse_varint_roundtrip(tag, payload + rest);
    let after = s.skip(tb.len() as int);
    assert(after =~= payload + rest);
    assert(low32(tag) == tag);
    assert(low32(tag) / 8 == f.number);
    assert(low32(tag) % 8 == wire_type(f.value));
    match f.value {
        WireValueView::Varint(v) => {
            lemma_parse_varint_roundtrip(v, rest);
        },
        WireValueView::Fixed64(b) => {
            assert(after.take(8) =~= b);
        },
        WireValueView::Bytes(b) => {
            let lb = varint_bytes(b.len());
            assert(after =~= lb + (b + rest));
            lemma_parse_varint_roundtrip(b.len() as u64, b + rest);
            assert(low32(b.len() as u64) == b.len());
            assert(after.subrange(lb.len() as int, (lb.len() + b.len()) as int) =~= b);
        },
        WireValueView::Fixed32(b) => {
            assert(after.take(4) =~= b);
        },
        WireValueView::Group => {},
    }
}

/// Reading the fields back from the encoding of a sequence of well-formed
/// fields gives that sequence.
pub proof fn lemma_fields_roundtrip(fs: Seq<FieldView>)
    requires
        forall|i: int| 0 <= i < fs.len() ==> field_wf(#[trigger] fs[i]),
    ensures
        parse_fields(fields_bytes(fs)) == Some(fs),
    decreases fs.len(),
{
    if fs.len() > 0 {
        let fb = field_bytes(fs[0]);
        let tail = fields_bytes(fs.drop_first());
        assert(field_wf(fs[0]));
        lemma_field_roundtrip(fs[0], tail);
        lemma_varint_len_u64((fs[0].number * 8 + wire_type(fs[0].value)) as u64);
        assert(fb.len() >= 1);
        let s = fields_bytes(fs);
        assert(s == fb + tail);
        assert(s.skip(fb.len() as int) =~= tail);
        assert forall|i: int| 0 <= i < fs.drop_first().len() implies field_wf(
            #[trigger] fs.drop_first()[i],
        ) by {
            assert(fs.drop_first()[i] == fs[i + 1]);
        }
        lemma_fields_roundtrip(fs.drop_first());
        assert(seq![fs[0]] + fs.drop_first() =~= fs);
    }
}

// ---------------------------------------------------------------------------
// Reading fields
// ---------------------------------------------------------------------------

/// The payload of a field as it is held in memory.
pub enum WireValue {
    Varint(u64),
    Fixed64(Vec<u8>),
    Bytes(Vec<u8>),
    Fixed32(Vec<u8>),
    Group,
}

/// A field as it is held in memory.
pub struct Field {
    pub number: u64,
    pub value: WireValue,
}

impl View for WireValue {
    type V = WireValueView;

    open spec fn view(&self) -> WireValueView {
        match self {
            WireValue::Varint(v) => WireValueView::Varint(*v),
            WireValue::Fixed64(b) => WireValueView::Fixed64(b@),
            WireValue::Bytes(b) => WireValueView::Bytes(b@),
            WireValue::Fixed32(b) => WireValueView::Fixed32(b@),
            WireValue::Group => WireValueView::Group,
        }
    }
}

impl View for Field {
    type V = FieldView;

    open spec fn view(&self) -> FieldView {
        FieldView { number: self.number, value: self.value@ }
    }
}

/// The fields of a vector, each by its view.
pub open spec fn fields_view(fs: Seq<Field>) -> Seq<FieldView> {
    fs.map_values(|f: Field| f@)
}

fn copy_range(data: &[u8], start: usize, end: usize) -> (r: Vec<u8>)
    requires
        start <= end <= data@.len(),
    ensures
        r@ == data@.subrange(start as int, end as int),
{
    slice_to_vec(slice_subrange(data, start, end))
}

/// Reads past the payload of wire type `wt` (other than a group) that starts
/// at `pos`: the position after it.
fn read_payload_end(data: &[u8], pos: usize, wt: u64) -> (r: Option<usize>)
    requires
        pos <= data@.len(),
    ensures
        match r {
            Some(end) => pos <= end <= data@.len() && payload_len(data@.skip(pos as int), wt)
                == Some((end - pos) as nat),
            None => payload_len(data@.skip(pos as int), wt) is None,
        },
{
    let len = data.len();
    if wt == 0 {
        match read_varint(data, pos) {
            Some((_, p2)) => Some(p2),
            None => None,
        }
    } else if wt == 1 {
        if len - pos >= 8 {
            Some(pos + 8)
        } else {
            None
        }
    } else if wt == 2 {
        match read_varint(data, pos) {
            Some((l64, p2)) => {
                let l = l64 % 0x1_0000_0000;
                if l <= (len - p2) as u64 {
                    Some(p2 + l as usize)
                } else {
                    None
                }
            },
            None => None,
        }
    } else if wt == 5 {
        if len - pos >= 4 {
            Some(pos + 4)
        } else {
            None
        }
    } else {
        None
    }
}

/// Reads past the body of a group that starts at `pos`, its end tag
/// included: the position after it.
fn skip_group(data: &[u8], pos: usize) -> (r: Option<usize>)
    requires
        pos <= data@.len(),
    ensures
        match r {
            Some(end) => pos < end <= data@.len() && group_body_len(data@.skip(pos as int))
                == Some((end - pos) as nat),
            None => group_body_len(data@.skip(pos as int)) is None,
        },
{
    let len = data.len();
    let mut p: usize = pos;
    assert(data@.skip(pos as int).skip(0) =~= data@.skip(pos as int));
    loop
        invariant
            len == data@.len(),
            pos <= p <= len,
            group_body_len(data@.skip(pos as int)) == match group_body_len(data@.skip(p as int)) {
                Some(k) => Some((p - pos + k) as nat),
                None => None,
            },
        decreases len - p,
    {
        let ghost t = data@.skip(p as int);
        let (t64, p1) = match read_varint(data, p) {
            Some(x) => x,
            None => {
                return None;
            },
        };
        let tag = t64 % 0x1_0000_0000;
        assert(t.skip((p1 - p) as int) =~= data@.skip(p1 as int));
        if tag / 8 == 0 {
            return None;
        }
        if tag % 8 == 4 {
            return Some(p1);
        }
        let p2 = match read_payload_end(data, p1, tag % 8) {
            Some(e) => e,
            None => {
                return None;
            },
        };
        assert(t.skip((p2 - p) as int) =~= data@.skip(p2 as int));
        p = p2;
    }
}

/// Reads the field that starts at `pos`: the field and the position after it.
pub fn read_field(data: &[u8], pos: usize) -> (r: Option<(Field, usize)>)
    requires
        pos <= data@.len(),
    ensures
        match r {
            Some((f, end)) => pos < end <= data@.len() && parse_field(data@.skip(pos as int))
                == Some((f@, (end - pos) as nat)),
            None => parse_field(data@.skip(pos as int)) is None,
        },
{
    let ghost s = data@.skip(pos as int);
    let (t64, p1) = match read_varint(data, pos) {
        Some(x) => x,
        None => {
            return None;
        },
    };
    let tag = t64 % 0x1_0000_0000;
    let ghost n = (p1 - pos) as nat;
    assert(s.skip(n as int) =~= data@.skip(p1 as int));
    let number = tag / 8;
    let wt = tag % 8;
    let len = data.len();
    if number == 0 {
        return None;
    }
    if wt == 0 {
        match read_varint(data, p1) {
            Some((v, p2)) => {
                return Some((Field { number, value: WireValue::Varint(v) }, p2));
            },
            None => {
                return None;
            },
        }
    } else if wt == 1 {
        if len - p1 >= 8 {
            let b = copy_range(data, p1, p1 + 8);
            assert(b@ =~= data@.skip(p1 as int).take(8));
            return Some((Field { number, value: WireValue::Fixed64(b) }, p1 + 8));
        } else {
            return None;
        }
    } else if wt == 2 {
        match read_varint(data, p1) {
            Some((l64, p2)) => {
                let l = l64 % 0x1_0000_0000;
                if l <= (len - p2) as u64 {
                    let end = p2 + l as usize;
                    let b = copy_range(data, p2, end);
                    assert(b@ =~= data@.skip(p1 as int).subrange(
                        (p2 - p1) as int,
                        (p2 - p1 + l) as int,
                    ));
                    return Some((Field { number, value: WireValue::Bytes(b) }, end));
                } else {
                    return None;
                }
            },
            None => {
                return None;
            },
        }
    } else if wt == 3 {
        match skip_group(data, p1) {
            Some(end) => {
                return Some((Field { number, value: WireValue::Group }, end));
            },
            None => {
                return None;
            },
        }
    } else if wt == 5 {
        if len - p1 >= 4 {
            let b = copy_range(data, p1, p1 + 4);
            assert(b@ =~= data@.skip(p1 as int).take(4));
            return Some((Field { number, value: WireValue::Fixed32(b) }, p1 + 4));
        } else {
            return None;
        }
    } else {
        return None;
    }
}

/// Reads all the fields of `data`; `None` where it does not split into
/// fields.
pub fn read_fields(data: &[u8]) -> (r: Option<Vec<Field>>)
    ensures
        match r {
            Some(fs) => parse_fields(data@) == Some(fields_view(fs@)),
            None => parse_fields(data@) is None,
        },
{
    let len = data.len();
    let mut pos: usize = 0;
    let mut out: Vec<Field> = Vec::new();
    assert(data@.skip(0) =~= data@);
    assert(fields_view(out@) =~= seq![]);
    while pos < len
        invariant
            len == data@.len(),
            pos <= len,
            parse_fields(data@) == match parse_fields(data@.skip(pos as int)) {
                Some(rest) => Some(fields_view(out@) + rest),
                None => None,
            },
        decreases len - pos,
    {
        let ghost s = data@.skip(pos as int);
        match read_field(data, pos) {
            Some((f, end)) => {
                assert(s.skip((end - pos) as int) =~= data@.skip(end as int));
                let ghost before = fields_view(out@);
                out.push(f);
                assert(fields_view(out@) =~= before.push(f@));
                proof {
                    match parse_fields(data@.skip(end as int)) {
                        Some(rest) => {
                            assert(before + (seq![f@] + rest) =~= fields_view(out@) + rest);
                        },
                        None => {},
                    }
                }
                pos = end;
            },
            None => {
                return None;
            },
        }
    }
    assert(data@.skip(pos as int) =~= Seq::<u8>::empty());
    assert(fields_view(out@) + Seq::<FieldView>::empty() =~= fields_view(out@));
    Some(out)
}

// ---------------------------------------------------------------------------
// The value of a field within a message
// ---------------------------------------------------------------------------

/// The value of length-delimited field `n`: the last occurrence wins, an
/// absent field is empty, and an occurrence of another wire type makes the
/// message unreadable (`None`).
pub open spec fn bytes_field(fs: Seq<FieldView>, n: u64) -> Option<Seq<u8>>
    decreases fs.len(),
{
    if fs.len() == 0 {
        Some(seq![])
    } else {
        match bytes_field(fs.drop_last(), n) {
            None => None,
            Some(prev) => if fs.last().number != n {
                Some(prev)
            } else {
                match fs.last().value {
                    WireValueView::Bytes(b) => Some(b),
                    _ => None,
                }
            },
        }
    }
}

/// The value of varint field `n`: the last occurrence wins, an absent field
/// is zero, and an occurrence of another wire type makes the message
/// unreadable.
pub open spec fn varint_field(fs: Seq<FieldView>, n: u64) -> Option<u64>
    decreases fs.len(),
{
    if fs.len() == 0 {
        Some(0)
    } else {
        match varint_field(fs.drop_last(), n) {
            None => None,
            Some(prev) => if fs.last().number != n {
                Some(prev)
            } else {
                match fs.last().value {
                    WireValueView::Varint(v) => Some(v),
                    _ => None,
                }
            },
        }
    }
}

/// The value of enumeration field `n` with `count` known values: as for a
/// varint field, except that the value is read as a 32-bit number and an
/// occurrence with an unknown value is passed over.
pub open spec fn enum_field(fs: Seq<FieldView>, n: u64, count: u64) -> Option<u64>
    decreases fs.len(),
{
    if fs.len() == 0 {
        Some(0)
    } else {
        match enum_field(fs.drop_last(), n, count) {
            None => None,
            Some(prev) => if fs.last().number != n {
                Some(prev)
            } else {
                match fs.last().value {
                    WireValueView::Varint(v) => if low32(v) < count {
                        Some(low32(v))
                    } else {
                        Some(prev)
                    },
                    _ => None,
                }
            },
        }
    }
}

/// An enumeration field reads as its default or as one of the known values.
pub proof fn lemma_enum_field_below(fs: Seq<FieldView>, n: u64, count: u64)
    ensures
        enum_field(fs, n, count) matches Some(v) ==> v == 0 || v < count,
    decreases fs.len(),
{
    if fs.len() > 0 {
        lemma_enum_field_below(fs.drop_last(), n, count);
    }
}

proof fn lemma_bytes_field_stuck(fs: Seq<FieldView>, n: u64, k: int)
    requires
        0 <= k <= fs.len(),
        bytes_field(fs.take(k), n) is None,
    ensures
        bytes_field(fs, n) is None,
    decreases fs.len(),
{
    if fs.len() == k {
        assert(fs.take(k) =~= fs);
    } else {
        assert(fs.drop_last().take(k) =~= fs.take(k));
        lemma_bytes_field_stuck(fs.drop_last(), n, k);
    }
}

proof fn lemma_varint_field_stuck(fs: Seq<FieldView>, n: u64, k: int)
    requires
        0 <= k <= fs.len(),
        varint_field(fs.take(k), n) is None,
    ensures
        varint_field(fs, n) is None,
    decreases fs.len(),
{
    if fs.len() == k {
        assert(fs.take(k) =~= fs);
    } else {
        assert(fs.drop_last().take(k) =~= fs.take(k));
        lemma_varint_field_stuck(fs.drop_last(), n, k);
    }
}

proof fn lemma_enum_field_stuck(fs: Seq<FieldView>, n: u64, count: u64, k: int)
    requires
        0 <= k <= fs.len(),
        enum_field(fs.take(k), n, count) is None,
    ensures
        enum_field(fs, n, count) is None,
    decreases fs.len(),
{
    if fs.len() == k {
        assert(fs.take(k) =~= fs);
    } else {
        assert(fs.drop_last().take(k) =~= fs.take(k));
        lemma_enum_field_stuck(fs.drop_last(), n, count, k);
    }
}

/// The value of length-delimited field `n` among `fs`.
pub fn get_bytes_field(fs: &Vec<Field>, n: u64) -> (r: Option<Vec<u8>>)
    ensures
        match r {
            Some(b) => bytes_field(fields_view(fs@), n) == Some(b@),
            None => bytes_field(fields_view(fs@), n) is None,
        },
{
    let ghost all = fields_view(fs@);
    let mut cur: Vec<u8> = Vec::new();
    let mut i: usize = 0;
    assert(all.take(0) =~= seq![]);
    while i < fs.len()
        invariant
            all == fields_view(fs@),
            i <= fs.len(),
            bytes_field(all.take(i as int), n) == Some(cur@),
        decreases fs.len() - i,
    {
        assert(all.take(i + 1).drop_last() =~= all.take(i as int));
        assert(all.take(i + 1).last() == fs@[i as int]@);
        let f = &fs[i];
        if f.number == n {
            match &f.value {
                WireValue::Bytes(b) => {
                    cur = slice_to_vec(b.as_slice());
                },
                _ => {
                    proof {
                        lemma_bytes_field_stuck(all, n, i + 1);
                    }
                    return None;
                },
            }
        }
        i = i + 1;
    }
    assert(all.take(fs.len() as int) =~= all);
    Some(cur)
}

/// The value of varint field `n` among `fs`.
pub fn get_varint_field(fs: &Vec<Field>, n: u64) -> (r: Option<u64>)
    ensures
        r == varint_field(fields_view(fs@), n),
{
    let ghost all = fields_view(fs@);
    let mut cur: u64 = 0;
    let mut i: usize = 0;
    assert(all.take(0) =~= seq![]);
    while i < fs.len()
        invariant
            all == fields_view(fs@),
            i <= fs.len(),
            varint_field(all.take(i as int), n) == Some(cur),
        decreases fs.len() - i,
    {
        assert(all.take(i + 1).drop_last() =~= all.take(i as int));
        assert(all.take(i + 1).last() == fs@[i as int]@);
        let f = &fs[i];
        if f.number == n {
            match &f.value {
                WireValue::Varint(v) => {
                    cur = *v;
                },
                _ => {
                    proof {
                        lemma_varint_field_stuck(all, n, i + 1);
                    }
                    return None;
                },
            }
        }
        i = i + 1;
    }
    assert(all.take(fs.len() as int) =~= all);
    Some(cur)
}

/// The value of enumeration field `n`, with `count` known values, among `fs`.
pub fn get_enum_field(fs: &Vec<Field>, n: u64, count: u64) -> (r: Option<u64>)
    ensures
        r == enum_field(fields_view(fs@), n, count),
{
    let ghost all = fields_view(fs@);
    let mut cur: u64 = 0;
    let mut i: usize = 0;
    assert(all.take(0) =~= seq![]);
    while i < fs.len()
        invariant
            all == fields_view(fs@),
            i <= fs.len(),
            enum_field(all.take(i as int), n, count) == Some(cur),
        decreases fs.len() - i,
    {
        assert(all.take(i + 1).drop_last() =~= all.take(i as int));
        assert(all.take(i + 1).last() == fs@[i as int]@);
        let f = &fs[i];
        if f.number == n {
            match &f.value {
                WireValue::Varint(v) => {
                    let v32 = *v % 0x1_0000_0000;
                    if v32 < count {
                        cur = v32;
                    }
                },
                _ => {
                    proof {
                        lemma_enum_field_stuck(all, n, count, i + 1);
                    }
                    return None;
                },
            }
        }
        i = i + 1;
    }
    assert(all.take(fs.len() as int) =~= all);
    Some(cur)
}

/// No field of `fs` has number `n`.
pub open spec fn lacks_number(fs: Seq<FieldView>, n: u64) -> bool {
    forall|i: int| 0 <= i < fs.len() ==> (#[trigger] fs[i]).number != n
}

/// Every field of `fs` can be written.
pub open spec fn all_wf(fs: Seq<FieldView>) -> bool {
    forall|i: int| 0 <= i < fs.len() ==> field_wf(#[trigger] fs[i])
}

pub proof fn lemma_concat_props(a: Seq<FieldView>, b: Seq<FieldView>, n: u64)
    ensures
        lacks_number(a, n) && lacks_number(b, n) ==> lacks_number(a + b, n),
        all_wf(a) && all_wf(b) ==> all_wf(a + b),
{
    if lacks_number(a, n) && lacks_number(b, n) {
        assert forall|i: int| 0 <= i < (a + b).len() implies (#[trigger] (a + b)[i]).number != n by {
            if i < a.len() {
                assert((a + b)[i] == a[i]);
            } else {
                assert((a + b)[i] == b[i - a.len()]);
            }
        }
    }
    if all_wf(a) && all_wf(b) {
        assert forall|i: int| 0 <= i < (a + b).len() implies field_wf(#[trigger] (a + b)[i]) by {
            if i < a.len() {
                assert((a + b)[i] == a[i]);
            } else {
                assert((a + b)[i] == b[i - a.len()]);
            }
        }
    }
}

/// A sequence without field `n` reads field `n` as its default.
pub proof fn lemma_absent_default(fs: Seq<FieldView>, n: u64, count: u64)
    requires
        lacks_number(fs, n),
    ensures
        bytes_field(fs, n) == Some(Seq::<u8>::empty()),
        varint_field(fs, n) == Some(0u64),
        enum_field(fs, n, count) == Some(0u64),
    decreases fs.len(),
{
    if fs.len() > 0 {
        assert(fs.last() == fs[fs.len() - 1]);
        lemma_absent_default(fs.drop_last(), n, count);
    }
}

/// Fields with other numbers that follow do not change the value of field `n`.
pub proof fn lemma_suffix_without(fs: Seq<FieldView>, gs: Seq<FieldView>, n: u64, count: u64)
    requires
        lacks_number(gs, n),
    ensures
        bytes_field(fs + gs, n) == bytes_field(fs, n),
        varint_field(fs + gs, n) == varint_field(fs, n),
        enum_field(fs + gs, n, count) == enum_field(fs, n, count),
    decreases gs.len(),
{
    if gs.len() == 0 {
        assert(fs + gs =~= fs);
    } else {
        assert((fs + gs).drop_last() =~= fs + gs.drop_last());
        assert((fs + gs).last() == gs[gs.len() - 1]);
        lemma_suffix_without(fs, gs.drop_last(), n, count);
    }
}

/// Fields with other numbers that come before do not change the value of
/// field `n`.
pub proof fn lemma_prefix_without(fs: Seq<FieldView>, gs: Seq<FieldView>, n: u64, count: u64)
    requires
        lacks_number(fs, n),
    ensures
        bytes_field(fs + gs, n) == bytes_field(gs, n),
        varint_field(fs + gs, n) == varint_field(gs, n),
        enum_field(fs + gs, n, count) == enum_field(gs, n, count),
    decreases gs.len(),
{
    if gs.len() == 0 {
        assert(fs + gs =~= fs);
        lemma_absent_default(fs, n, count);
    } else {
        assert((fs + gs).drop_last() =~= fs + gs.drop_last());
        assert((fs + gs).last() == gs[gs.len() - 1]);
        lemma_prefix_without(fs, gs.drop_last(), n, count);
    }
}

/// A single field reads as its own value.
pub proof fn lemma_single_field(f: FieldView, count: u64)
    ensures
        f.value matches WireValueView::Bytes(b) ==> bytes_field(seq![f], f.number) == Some(b),
        f.value matches WireValueView::Varint(v) ==> varint_field(seq![f], f.number) == Some(v),
        f.value matches WireValueView::Varint(v) ==> v < count <= 0x1_0000_0000 ==> enum_field(
            seq![f],
            f.number,
            count,
        ) == Some(v),
{
    let s = seq![f];
    assert(s.drop_last() =~= Seq::<FieldView>::empty());
    assert(s.last() == f);
    lemma_absent_default(Seq::<FieldView>::empty(), f.number, count);
}

/// Encoding two sequences of fields one after the other.
pub proof fn lemma_fields_bytes_concat(a: Seq<FieldView>, b: Seq<FieldView>)
    ensures
        fields_bytes(a + b) == fields_bytes(a) + fields_bytes(b),
    decreases a.len(),
{
    if a.len() == 0 {
        assert(a + b =~= b);
        assert(fields_bytes(a) == Seq::<u8>::empty());
        assert(fields_bytes(a) + fields_bytes(b) =~= fields_bytes(b));
    } else {
        assert((a + b).drop_first() =~= a.drop_first() + b);
        assert((a + b)[0] == a[0]);
        lemma_fields_bytes_concat(a.drop_first(), b);
        assert(fields_bytes(a + b) =~= fields_bytes(a) + fields_bytes(b));
    }
}

/// Encoding a single field.
pub proof fn lemma_fields_bytes_single(f: FieldView)
    ensures
        fields_bytes(seq![f]) == field_bytes(f),
{
    assert(seq![f].drop_first() =~= Seq::<FieldView>::empty());
    assert(fields_bytes(Seq::<FieldView>::empty()) == Seq::<u8>::empty());
    assert(field_bytes(f) + Seq::<u8>::empty() =~= field_bytes(f));
}

// ---------------------------------------------------------------------------
// Writing fields
// ---------------------------------------------------------------------------

/// Appends a varint field.
pub fn write_varint_field(out: &mut Vec<u8>, number: u64, v: u64)
    requires
        1 <= number,
        number * 8 + 7 <= u64::MAX,
    ensures
        final(out)@ == old(out)@ + field_bytes(
            FieldView { number, value: WireValueView::Varint(v) },
        ),
{
    write_varint(out, number * 8);
    write_varint(out, v);
    assert(final(out)@ =~= old(out)@ + field_bytes(
        FieldView { number, value: WireValueView::Varint(v) },
    ));
}

/// Appends a length-delimited field.
pub fn write_bytes_field(out: &mut Vec<u8>, number: u64, b: &[u8])
    requires
        1 <= number,
        number * 8 + 7 <= u64::MAX,
    ensures
        final(out)@ == old(out)@ + field_bytes(
            FieldView { number, value: WireValueView::Bytes(b@) },
        ),
{
    write_varint(out, number * 8 + 2);
    write_varint(out, b.len() as u64);
    let mut i: usize = 0;
    let ghost start = out@;
    while i < b.len()
        invariant
            i <= b@.len(),
            out@ == start + b@.take(i as int),
        decreases b@.len() - i,
    {
        out.push(b[i]);
        assert(b@.take(i + 1) =~= b@.take(i as int).push(b@[i as int]));
        i = i + 1;
    }
    assert(b@.take(b@.len() as int) =~= b@);
    assert(final(out)@ =~= old(out)@ + field_bytes(
        FieldView { number, value: WireValueView::Bytes(b@) },
    ));
}

} // verus!
