//! A minimal self-describing type format: a list of types, each with its
//! fields, and a table of NUL-terminated names, in one flat blob.
//!
//! ```text
//! [magic: 4 bytes "MTF\0"] [version: u32, 1] [type_count: u32]
//! type_count times:
//!   [name_offset: u32] [size_bits: u32] [field_count: u32]
//!   field_count times: [name_offset: u32] [offset_bits: u32] [size_bits: u32]
//! [string_table_len: u32] [string table]
//! ```
//!
//! Every integer is 32 bits wide and little-endian.

use crate::endian::{
    lemma_u32_le_round_trip, push_u32_le, read_u32_le, u32_le_at, u32_le_bytes,
};
use crate::foreign::{io_error_text, str_from_utf8};
use crate::names::NameMap;
use crate::text::{append_decimal, decimal};
use vstd::prelude::*;
use vstd::string::{StringExecFns, StringSliceAdditionalSpecFns};

verus! {

/// The version of the format that this module reads and writes.
pub const MTF_VERSION: u32 = 1;

/// One field of a type: where its name stands in the string table, and
/// which bits of the type it takes.
#[derive(Debug, Clone, Copy, PartialEq, Eq, Structural)]
pub struct FieldDef {
    pub name_offset: u32,
    pub offset_bits: u32,
    pub size_bits: u32,
}

/// One type: where its name stands in the string table, its size in bits,
/// and its fields.
#[derive(Debug, Clone, PartialEq, Eq)]
pub struct TypeDef {
    pub name_offset: u32,
    pub size_bits: u32,
    pub fields: Vec<FieldDef>,
}

/// A [`TypeDef`] as a value of specifications.
pub struct TypeDefView {
    pub name_offset: u32,
    pub size_bits: u32,
    pub fields: Seq<FieldDef>,
}

impl View for TypeDef {
    type V = TypeDefView;

    open spec fn view(&self) -> TypeDefView {
        TypeDefView {
            name_offset: self.name_offset,
            size_bits: self.size_bits,
            fields: self.fields@,
        }
    }
}

/// The views of a list of types.
pub open spec fn types_view(types: Seq<TypeDef>) -> Seq<TypeDefView> {
    Seq::new(types.len(), |i: int| types[i]@)
}

/// What can go wrong with a blob or a string table.
#[derive(Debug)]
pub enum MTFError {
    /// The blob does not start with the magic tag.
    InvalidMagic,
    /// The blob names a version other than 1; holds the version.
    UnsupportedVersion(u32),
    /// The blob or the string ends too early.
    UnexpectedEof,
    /// The string is not valid UTF-8.
    InvalidUtf8,
    /// The offset lies at or past the end of the string table; holds the
    /// offset.
    InvalidStringOffset(u32),
    /// The operating system reported a failure.
    Io(std::io::Error),
}

impl MTFError {
    /// The text of the error, for every kind but `Io`, whose text is the
    /// operating system's.
    pub open spec fn message(&self) -> Seq<char> {
        match self {
            MTFError::InvalidMagic => "Invalid magic bytes (expected MTF\\0)"@,
            MTFError::UnsupportedVersion(v) => "Unsupported version: "@ + decimal(*v as nat),
            MTFError::UnexpectedEof => "Unexpected end of data"@,
            MTFError::InvalidUtf8 => "Invalid UTF-8 in string table"@,
            MTFError::InvalidStringOffset(o) => "String offset "@ + decimal(*o as nat)
                + " out of bounds"@,
            MTFError::Io(_) => "IO error: "@,
        }
    }

    /// Returns the text of the error.
    pub fn to_string(&self) -> (r: String)
        ensures
            !(self is Io) ==> r@ == self.message(),
    {
        match self {
            MTFError::InvalidMagic => String::from_str("Invalid magic bytes (expected MTF\\0)"),
            MTFError::UnsupportedVersion(v) => {
                let mut out = String::from_str("Unsupported version: ");
                append_decimal(&mut out, *v as u64);
                out
            },
            MTFError::UnexpectedEof => String::from_str("Unexpected end of data"),
            MTFError::InvalidUtf8 => String::from_str("Invalid UTF-8 in string table"),
            MTFError::InvalidStringOffset(o) => {
                let mut out = String::from_str("String offset ");
                append_decimal(&mut out, *o as u64);
                out.append(" out of bounds");
                out
            },
            MTFError::Io(e) => String::from_str("IO error: ").concat(io_error_text(e).as_str()),
        }
    }
}

impl From<std::io::Error> for MTFError {
    fn from(e: std::io::Error) -> (r: MTFError)
        ensures
            r == MTFError::Io(e),
    {
        MTFError::Io(e)
    }
}

impl vstd::std_specs::convert::FromSpecImpl<std::io::Error> for MTFError {
    open spec fn obeys_from_spec() -> bool {
        true
    }

    open spec fn from_spec(e: std::io::Error) -> MTFError {
        MTFError::Io(e)
    }
}

/// A type that carries its own description in this format.
pub trait MTFType {
    /// The blob that describes the type.
    fn mtf_type_blob() -> &'static [u8];

    /// The string table of that blob.
    fn mtf_string_table() -> &'static [u8];
}

/// The magic tag, the bytes of `MTF` and a NUL.
pub open spec fn magic() -> Seq<u8> {
    seq![0x4Du8, 0x54u8, 0x46u8, 0u8]
}

/// The twelve bytes of a field.
pub open spec fn encode_field(f: FieldDef) -> Seq<u8> {
    u32_le_bytes(f.name_offset) + u32_le_bytes(f.offset_bits) + u32_le_bytes(f.size_bits)
}

/// The bytes of a list of fields, one after the other.
pub open spec fn encode_fields(fields: Seq<FieldDef>) -> Seq<u8>
    decreases fields.len(),
{
    if fields.len() == 0 {
        Seq::<u8>::empty()
    } else {
        encode_fields(fields.drop_last()) + encode_field(fields.last())
    }
}

/// The bytes of a type: its twelve own bytes, then its fields. The field
/// count is cut down to 32 bits.
#[verifier::opaque]
pub open spec fn encode_type(t: TypeDefView) -> Seq<u8> {
    u32_le_bytes(t.name_offset) + u32_le_bytes(t.size_bits) + u32_le_bytes(t.fields.len() as u32)
        + encode_fields(t.fields)
}

/// The bytes of a list of types, one after the other.
pub open spec fn encode_types(types: Seq<TypeDefView>) -> Seq<u8>
    decreases types.len(),
{
    if types.len() == 0 {
        Seq::<u8>::empty()
    } else {
        encode_types(types.drop_last()) + encode_type(types.last())
    }
}

/// The blob of a list of types and a string table. The type count and the
/// table's length are cut down to 32 bits.
pub open spec fn encode(types: Seq<TypeDefView>, strings: Seq<u8>) -> Seq<u8> {
    magic() + u32_le_bytes(MTF_VERSION) + u32_le_bytes(types.len() as u32) + encode_types(types)
        + u32_le_bytes(strings.len() as u32) + strings
}

/// The field whose twelve bytes start at byte `p` of `data`.
pub open spec fn field_at(data: Seq<u8>, p: int) -> FieldDef {
    FieldDef {
        name_offset: u32_le_at(data, p),
        offset_bits: u32_le_at(data, p + 4),
        size_bits: u32_le_at(data, p + 8),
    }
}

/// The `count` fields that stand one after the other from byte `p` of
/// `data` on.
pub open spec fn fields_at(data: Seq<u8>, p: int, count: nat) -> Seq<FieldDef> {
    Seq::new(count, |k: int| field_at(data, p + 12 * k))
}

/// The type that starts at byte `p` of `data`, appended to `types`, and the
/// position after it, or `None` where `data` ends before the type does.
pub open spec fn parse_type(data: Seq<u8>, types: Seq<TypeDefView>, p: int) -> Option<
    (Seq<TypeDefView>, int),
> {
    if data.len() - p < 12 {
        None
    } else if data.len() - (p + 12) < 12 * u32_le_at(data, p + 8) {
        None
    } else {
        Some(
            (
                types.push(
                    TypeDefView {
                        name_offset: u32_le_at(data, p),
                        size_bits: u32_le_at(data, p + 4),
                        fields: fields_at(data, p + 12, u32_le_at(data, p + 8) as nat),
                    },
                ),
                p + 12 + 12 * u32_le_at(data, p + 8),
            ),
        )
    }
}

/// The first `count` types from byte `start` of `data` on and the position
/// after them, or `None` where `data` ends before the last of them does.
pub open spec fn parse_types(data: Seq<u8>, start: int, count: nat) -> Option<
    (Seq<TypeDefView>, int),
>
    decreases count,
{
    if count == 0 {
        Some((Seq::<TypeDefView>::empty(), start))
    } else {
        match parse_types(data, start, (count - 1) as nat) {
            None => None,
            Some((types, p)) => parse_type(data, types, p),
        }
    }
}

/// What reading makes of a blob: the types and the string table, or the
/// reason why the blob is refused. Bytes after the string table are not
/// looked at.
pub open spec fn decode(data: Seq<u8>) -> Result<(Seq<TypeDefView>, Seq<u8>), MTFError> {
    if data.len() < 12 {
        Err(MTFError::UnexpectedEof)
    } else if data.subrange(0, 4) != magic() {
        Err(MTFError::InvalidMagic)
    } else if u32_le_at(data, 4) != MTF_VERSION {
        Err(MTFError::UnsupportedVersion(u32_le_at(data, 4)))
    } else {
        match parse_types(data, 12, u32_le_at(data, 8) as nat) {
            None => Err(MTFError::UnexpectedEof),
            Some((types, p)) => {
                if data.len() - p < 4 {
                    Err(MTFError::UnexpectedEof)
                } else if data.len() - (p + 4) < u32_le_at(data, p) {
                    Err(MTFError::UnexpectedEof)
                } else {
                    Ok((types, data.subrange(p + 4, p + 4 + u32_le_at(data, p))))
                }
            },
        }
    }
}

proof fn lemma_parse_types_stops(data: Seq<u8>, start: int, less: nat, more: nat)
    requires
        less <= more,
        parse_types(data, start, less) is None,
    ensures
        parse_types(data, start, more) is None,
    decreases more,
{
    if less < more {
        lemma_parse_types_stops(data, start, less, (more - 1) as nat);
    }
}

proof fn lemma_u32_in_place(pre: Seq<u8>, x: u32, suf: Seq<u8>)
    ensures
        u32_le_at(pre + u32_le_bytes(x) + suf, pre.len() as int) == x,
{
    let data = pre + u32_le_bytes(x) + suf;
    assert(data.subrange(pre.len() as int, pre.len() as int + 4) =~= u32_le_bytes(x));
    lemma_u32_le_round_trip(x, data, pre.len() as int);
}

proof fn lemma_encode_fields_len(fields: Seq<FieldDef>)
    ensures
        encode_fields(fields).len() == 12 * fields.len(),
    decreases fields.len(),
{
    if fields.len() > 0 {
        lemma_encode_fields_len(fields.drop_last());
    }
}

proof fn lemma_field_in_place(pre: Seq<u8>, f: FieldDef, suf: Seq<u8>)
    ensures
        field_at(pre + encode_field(f) + suf, pre.len() as int) == f,
{
    let data = pre + encode_field(f) + suf;
    let a = u32_le_bytes(f.name_offset);
    let b = u32_le_bytes(f.offset_bits);
    let c = u32_le_bytes(f.size_bits);
    assert(data =~= pre + a + (b + c + suf));
    lemma_u32_in_place(pre, f.name_offset, b + c + suf);
    assert(data =~= (pre + a) + b + (c + suf));
    lemma_u32_in_place(pre + a, f.offset_bits, c + suf);
    assert(data =~= (pre + a + b) + c + suf);
    lemma_u32_in_place(pre + a + b, f.size_bits, suf);
}

proof fn lemma_fields_in_place(pre: Seq<u8>, fields: Seq<FieldDef>, suf: Seq<u8>)
    ensures
        fields_at(pre + encode_fields(fields) + suf, pre.len() as int, fields.len()) == fields,
    decreases fields.len(),
{
    let data = pre + encode_fields(fields) + suf;
    if fields.len() > 0 {
        let front = fields.drop_last();
        let last = fields.last();
        lemma_encode_fields_len(front);
        assert(data =~= pre + encode_fields(front) + (encode_field(last) + suf));
        lemma_fields_in_place(pre, front, encode_field(last) + suf);
        assert(data =~= (pre + encode_fields(front)) + encode_field(last) + suf);
        lemma_field_in_place(pre + encode_fields(front), last, suf);
        assert forall|k: int| 0 <= k < fields.len() implies fields_at(
            data,
            pre.len() as int,
            fields.len(),
        )[k] == fields[k] by {
            if k < front.len() {
                assert(fields_at(data, pre.len() as int, front.len())[k] == front[k]);
            }
        }
    }
    assert(fields_at(data, pre.len() as int, fields.len()) =~= fields);
}

proof fn lemma_encode_type_len(t: TypeDefView)
    ensures
        encode_type(t).len() == 12 + 12 * t.fields.len(),
{
    reveal(encode_type);
    lemma_encode_fields_len(t.fields);
}

proof fn lemma_type_in_place(here: Seq<u8>, t: TypeDefView, suf: Seq<u8>)
    requires
        t.fields.len() <= u32::MAX,
    ensures
        ({
            let data = here + encode_type(t) + suf;
            let p = here.len() as int;
            &&& data.len() == p + 12 + 12 * t.fields.len() + suf.len()
            &&& u32_le_at(data, p) == t.name_offset
            &&& u32_le_at(data, p + 4) == t.size_bits
            &&& u32_le_at(data, p + 8) == t.fields.len()
            &&& fields_at(data, p + 12, t.fields.len()) == t.fields
        }),
{
    reveal(encode_type);
    let data = here + encode_type(t) + suf;
    let a = u32_le_bytes(t.name_offset);
    let b = u32_le_bytes(t.size_bits);
    let c = u32_le_bytes(t.fields.len() as u32);
    let d = encode_fields(t.fields);
    lemma_encode_fields_len(t.fields);
    assert(u32_le_at(data, here.len() as int) == t.name_offset) by {
        assert(data =~= here + a + (b + c + d + suf));
        lemma_u32_in_place(here, t.name_offset, b + c + d + suf);
    }
    assert(u32_le_at(data, here.len() as int + 4) == t.size_bits) by {
        assert(data =~= (here + a) + b + (c + d + suf));
        lemma_u32_in_place(here + a, t.size_bits, c + d + suf);
    }
    assert(u32_le_at(data, here.len() as int + 8) == t.fields.len()) by {
        assert(data =~= (here + a + b) + c + (d + suf));
        lemma_u32_in_place(here + a + b, t.fields.len() as u32, d + suf);
    }
    assert(fields_at(data, here.len() as int + 12, t.fields.len()) == t.fields) by {
        assert(data =~= (here + a + b + c) + d + suf);
        lemma_fields_in_place(here + a + b + c, t.fields, suf);
    }
}

proof fn lemma_parse_type_found(data: Seq<u8>, types: Seq<TypeDefView>, p: int, t: TypeDefView)
    requires
        0 <= p,
        data.len() >= p + 12 + 12 * t.fields.len(),
        t.fields.len() <= u32::MAX,
        u32_le_at(data, p) == t.name_offset,
        u32_le_at(data, p + 4) == t.size_bits,
        u32_le_at(data, p + 8) == t.fields.len(),
        fields_at(data, p + 12, t.fields.len()) == t.fields,
    ensures
        parse_type(data, types, p) == Some((types.push(t), p + 12 + 12 * t.fields.len())),
{
    assert(t == TypeDefView {
        name_offset: t.name_offset,
        size_bits: t.size_bits,
        fields: t.fields,
    });
}

proof fn lemma_encode_types_len(types: Seq<TypeDefView>)
    requires
        types.len() > 0,
    ensures
        encode_types(types).len() == encode_types(types.drop_last()).len() + 12 + 12
            * types.last().fields.len(),
{
    lemma_encode_type_len(types.last());
}

proof fn lemma_types_step(
    data: Seq<u8>,
    start: int,
    here: Seq<u8>,
    front: Seq<TypeDefView>,
    last: TypeDefView,
    suf: Seq<u8>,
)
    requires
        last.fields.len() <= u32::MAX,
        data == here + encode_type(last) + suf,
        parse_types(data, start, front.len()) == Some((front, here.len() as int)),
    ensures
        parse_types(data, start, front.len() + 1) == Some(
            (front.push(last), (here.len() + 12 + 12 * last.fields.len()) as int),
        ),
{
    lemma_type_in_place(here, last, suf);
    lemma_parse_type_found(data, front, here.len() as int, last);
}

proof fn lemma_types_in_place(pre: Seq<u8>, types: Seq<TypeDefView>, suf: Seq<u8>)
    requires
        forall|i: int| 0 <= i < types.len() ==> (#[trigger] types[i]).fields.len() <= u32::MAX,
    ensures
        parse_types(pre + encode_types(types) + suf, pre.len() as int, types.len()) == Some(
            (types, (pre.len() + encode_types(types).len()) as int),
        ),
    decreases types.len(),
{
    let data = pre + encode_types(types) + suf;
    if types.len() == 0 {
        assert(Seq::<TypeDefView>::empty() =~= types);
    } else {
        let front = types.drop_last();
        let last = types.last();
        let here = pre + encode_types(front);
        assert(data == pre + encode_types(front) + (encode_type(last) + suf)) by {
            assert(data =~= pre + encode_types(front) + (encode_type(last) + suf));
        }
        assert(data == here + encode_type(last) + suf) by {
            assert(data =~= here + encode_type(last) + suf);
        }
        lemma_types_in_place(pre, front, encode_type(last) + suf);
        lemma_types_step(data, pre.len() as int, here, front, last, suf);
        lemma_encode_types_len(types);
        assert(types == front.push(last)) by {
            assert(types =~= front.push(last));
        }
    }
}

/// Reading what was written gives back the types and the string table, as
/// long as every count and the table's length fit in 32 bits.
pub proof fn lemma_decode_encode(types: Seq<TypeDefView>, strings: Seq<u8>)
    requires
        types.len() <= u32::MAX,
        forall|i: int| 0 <= i < types.len() ==> (#[trigger] types[i]).fields.len() <= u32::MAX,
        strings.len() <= u32::MAX,
    ensures
        decode(encode(types, strings)) == Ok::<(Seq<TypeDefView>, Seq<u8>), MTFError>(
            (types, strings),
        ),
{
    let data = encode(types, strings);
    let m = magic();
    let v = u32_le_bytes(MTF_VERSION);
    let c = u32_le_bytes(types.len() as u32);
    let t = encode_types(types);
    let l = u32_le_bytes(strings.len() as u32);
    assert(data.subrange(0, 4) =~= magic());
    assert(data =~= m + v + (c + t + l + strings));
    lemma_u32_in_place(m, MTF_VERSION, c + t + l + strings);
    assert(data =~= (m + v) + c + (t + l + strings));
    lemma_u32_in_place(m + v, types.len() as u32, t + l + strings);
    assert(data =~= (m + v + c) + t + (l + strings));
    lemma_types_in_place(m + v + c, types, l + strings);
    let p = 12 + t.len() as int;
    assert(data =~= (m + v + c + t) + l + strings);
    lemma_u32_in_place(m + v + c + t, strings.len() as u32, strings);
    assert(data.subrange(p + 4, p + 4 + strings.len()) =~= strings);
}

/// Appends the blob of `types` and `strings` to `out`. Counts and lengths
/// are written as 32-bit numbers, cut down where they are larger.
pub fn write_mtf(types: &[TypeDef], strings: &[u8], out: &mut Vec<u8>) -> (r: Result<
    (),
    MTFError,
>)
    ensures
        r is Ok,
        final(out)@ == old(out)@ + encode(types_view(types@), strings@),
{
    let ghost start = out@;
    out.push(0x4D);
    out.push(0x54);
    out.push(0x46);
    out.push(0);
    push_u32_le(out, MTF_VERSION);
    push_u32_le(out, #[verifier::truncate] (types.len() as u32));
    let ghost head = out@;
    assert(head =~= start + magic() + u32_le_bytes(MTF_VERSION) + u32_le_bytes(
        types@.len() as u32,
    ));
    let mut i: usize = 0;
    while i < types.len()
        invariant
            i <= types@.len(),
            out@ == head + encode_types(types_view(types@).take(i as int)),
        decreases types@.len() - i,
    {
        let t = &types[i];
        let ghost before = out@;
        push_u32_le(out, t.name_offset);
        push_u32_le(out, t.size_bits);
        push_u32_le(out, #[verifier::truncate] (t.fields.len() as u32));
        let ghost type_head = out@;
        let mut j: usize = 0;
        while j < t.fields.len()
            invariant
                j <= t.fields@.len(),
                out@ == type_head + encode_fields(t.fields@.take(j as int)),
            decreases t.fields@.len() - j,
        {
            let f = &t.fields[j];
            push_u32_le(out, f.name_offset);
            push_u32_le(out, f.offset_bits);
            push_u32_le(out, f.size_bits);
            proof {
                assert(t.fields@.take(j + 1).drop_last() =~= t.fields@.take(j as int));
                assert(t.fields@.take(j + 1).last() == *f);
                assert(out@ =~= type_head + encode_fields(t.fields@.take(j + 1)));
            }
            j += 1;
        }
        proof {
            reveal(encode_type);
            assert(t.fields@.take(j as int) =~= t.fields@);
            let all = types_view(types@);
            assert(all.take(i + 1).drop_last() =~= all.take(i as int));
            assert(all.take(i + 1).last() == t@);
            assert(out@ =~= head + encode_types(all.take(i + 1)));
        }
        i += 1;
    }
    proof {
        assert(types_view(types@).take(i as int) =~= types_view(types@));
    }
    push_u32_le(out, #[verifier::truncate] (strings.len() as u32));
    let ghost before_strings = out@;
    out.extend_from_slice(strings);
    assert(out@ =~= before_strings + strings@);
    assert(out@ =~= start + encode(types_view(types@), strings@));
    Ok(())
}

fn read_fields(data: &[u8], pos: usize, count: usize) -> (r: Option<Vec<FieldDef>>)
    requires
        pos <= data@.len(),
    ensures
        data@.len() - pos < 12 * count ==> r is None,
        data@.len() - pos >= 12 * count ==> r is Some && r.unwrap()@ == fields_at(
            data@,
            pos as int,
            count as nat,
        ),
{
    let len = data.len();
    let mut fields: Vec<FieldDef> = Vec::new();
    let mut at = pos;
    let mut k: usize = 0;
    while k < count
        invariant
            k <= count,
            len == data@.len(),
            pos <= at <= len,
            at == pos + 12 * k,
            fields@ == fields_at(data@, pos as int, k as nat),
        decreases count - k,
    {
        if len - at < 12 {
            return None;
        }
        let no = read_u32_le(data, at);
        let off = read_u32_le(data, at + 4);
        let sz = read_u32_le(data, at + 8);
        fields.push(FieldDef { name_offset: no, offset_bits: off, size_bits: sz });
        at += 12;
        k += 1;
        assert(fields@ =~= fields_at(data@, pos as int, k as nat));
    }
    Some(fields)
}

/// Reads a blob into its types and its string table, which stays a part of
/// `data`. The blob is refused where it is too short for its fixed start,
/// carries another magic tag or version, or ends before one of its types,
/// fields or the string table does.
pub fn read_mtf(data: &[u8]) -> (r: Result<(Vec<TypeDef>, &[u8]), MTFError>)
    ensures
        match decode(data@) {
            Ok((types, strings)) => r is Ok && types_view(r->Ok_0.0@) == types && r->Ok_0.1@
                == strings,
            Err(e) => r is Err && r->Err_0 == e,
        },
{
    let len = data.len();
    if len < 12 {
        return Err(MTFError::UnexpectedEof);
    }
    if data[0] != 0x4D || data[1] != 0x54 || data[2] != 0x46 || data[3] != 0 {
        assert(data@.subrange(0, 4) != magic()) by {
            let m = data@.subrange(0, 4);
            assert(m[0] == data@[0] && m[1] == data@[1] && m[2] == data@[2] && m[3] == data@[3]);
        }
        return Err(MTFError::InvalidMagic);
    }
    assert(data@.subrange(0, 4) =~= magic());
    let version = read_u32_le(data, 4);
    if version != MTF_VERSION {
        return Err(MTFError::UnsupportedVersion(version));
    }
    let count = read_u32_le(data, 8) as usize;
    let mut pos: usize = 12;
    let mut types: Vec<TypeDef> = Vec::new();
    let mut i: usize = 0;
    while i < count
        invariant
            i <= count,
            len == data@.len(),
            12 <= pos <= len,
            parse_types(data@, 12, i as nat) == Some((types_view(types@), pos as int)),
            data@.len() >= 12,
            data@.subrange(0, 4) == magic(),
            u32_le_at(data@, 4) == MTF_VERSION,
            count == u32_le_at(data@, 8),
        decreases count - i,
    {
        if len - pos < 12 {
            proof {
                lemma_parse_types_stops(data@, 12, (i + 1) as nat, count as nat);
            }
            return Err(MTFError::UnexpectedEof);
        }
        let name_offset = read_u32_le(data, pos);
        let size_bits = read_u32_le(data, pos + 4);
        let fcount = read_u32_le(data, pos + 8) as usize;
        match read_fields(data, pos + 12, fcount) {
            None => {
                proof {
                    lemma_parse_types_stops(data@, 12, (i + 1) as nat, count as nat);
                }
                return Err(MTFError::UnexpectedEof);
            },
            Some(fields) => {
                let ghost before = types_view(types@);
                types.push(TypeDef { name_offset, size_bits, fields });
                assert(types_view(types@) =~= before.push(
                    TypeDefView {
                        name_offset,
                        size_bits,
                        fields: fields_at(data@, pos + 12, fcount as nat),
                    },
                ));
                pos = pos + 12 + 12 * fcount;
            },
        }
        i += 1;
    }
    if len - pos < 4 {
        return Err(MTFError::UnexpectedEof);
    }
    let string_len = read_u32_le(data, pos) as usize;
    pos += 4;
    if len - pos < string_len {
        return Err(MTFError::UnexpectedEof);
    }
    let strings = vstd::slice::slice_subrange(data, pos, pos + string_len);
    Ok((types, strings))
}

/// The position of the first NUL byte of `s` at or after `from`, or the
/// length of `s` where there is none.
pub open spec fn first_nul(s: Seq<u8>, from: int) -> int
    decreases s.len() - from,
{
    if from < 0 || from >= s.len() {
        s.len() as int
    } else if s[from] == 0 {
        from
    } else {
        first_nul(s, from + 1)
    }
}

/// What looking up a name makes of a string table and an offset: the bytes
/// of the name, from the offset to the next NUL byte, or the reason why
/// there is no name there.
pub open spec fn name_bytes(strings: Seq<u8>, offset: u32) -> Result<Seq<u8>, MTFError> {
    if offset >= strings.len() {
        Err(MTFError::InvalidStringOffset(offset))
    } else if first_nul(strings, offset as int) >= strings.len() {
        Err(MTFError::UnexpectedEof)
    } else if !vstd::utf8::valid_utf8(
        strings.subrange(offset as int, first_nul(strings, offset as int)),
    ) {
        Err(MTFError::InvalidUtf8)
    } else {
        Ok(strings.subrange(offset as int, first_nul(strings, offset as int)))
    }
}

/// Finds the first NUL byte of `s` at or after `from`.
pub(crate) fn find_nul(s: &[u8], from: usize) -> (r: usize)
    requires
        from <= s@.len(),
    ensures
        r == first_nul(s@, from as int),
        from <= r <= s@.len(),
{
    let mut i = from;
    while i < s.len()
        invariant
            from <= i <= s@.len(),
            first_nul(s@, from as int) == first_nul(s@, i as int),
        decreases s@.len() - i,
    {
        if s[i] == 0 {
            return i;
        }
        i += 1;
    }
    i
}

/// Looks up the name that starts at byte `offset` of a string table and
/// ends before the next NUL byte.
pub fn read_string(strings: &[u8], offset: u32) -> (r: Result<&str, MTFError>)
    ensures
        match name_bytes(strings@, offset) {
            Ok(bytes) => r is Ok && r->Ok_0.spec_bytes() == bytes,
            Err(e) => r is Err && r->Err_0 == e,
        },
{
    let start = offset as usize;
    if start >= strings.len() {
        return Err(MTFError::InvalidStringOffset(offset));
    }
    let end = find_nul(strings, start);
    if end >= strings.len() {
        return Err(MTFError::UnexpectedEof);
    }
    match str_from_utf8(vstd::slice::slice_subrange(strings, start, end)) {
        Some(s) => Ok(s),
        None => Err(MTFError::InvalidUtf8),
    }
}

/// The string table of a list of names: each name's bytes and a NUL byte.
pub open spec fn table_of(names: Seq<Seq<u8>>) -> Seq<u8>
    decreases names.len(),
{
    if names.len() == 0 {
        Seq::<u8>::empty()
    } else {
        table_of(names.drop_last()) + names.last() + seq![0u8]
    }
}

/// The offsets of a list of names in their table: each name with the start
/// of its last occurrence, cut down to 32 bits.
pub open spec fn offsets_of(names: Seq<Seq<char>>) -> Map<Seq<char>, u32>
    decreases names.len(),
{
    if names.len() == 0 {
        Map::<Seq<char>, u32>::empty()
    } else {
        offsets_of(names.drop_last()).insert(
            names.last(),
            table_of(utf8_of(names.drop_last())).len() as u32,
        )
    }
}

/// The UTF-8 bytes of each name.
pub open spec fn utf8_of(names: Seq<Seq<char>>) -> Seq<Seq<u8>> {
    Seq::new(names.len(), |i: int| vstd::utf8::encode_utf8(names[i]))
}

/// The texts of a list of string slices.
pub open spec fn texts(strings: Seq<&str>) -> Seq<Seq<char>> {
    Seq::new(strings.len(), |i: int| strings[i]@)
}

/// Builds the string table of `strings` and the map from each of them to
/// its offset in the table.
pub fn build_string_table(strings: &[&str]) -> (r: (Vec<u8>, NameMap<u32>))
    ensures
        r.0@ == table_of(utf8_of(texts(strings@))),
        r.1.wf(),
        r.1@ == offsets_of(texts(strings@)),
{
    let mut table: Vec<u8> = Vec::new();
    let mut offsets: NameMap<u32> = NameMap::new();
    let ghost all = texts(strings@);
    let mut i: usize = 0;
    while i < strings.len()
        invariant
            i <= strings@.len(),
            all == texts(strings@),
            table@ == table_of(utf8_of(all.take(i as int))),
            offsets.wf(),
            offsets@ == offsets_of(all.take(i as int)),
        decreases strings@.len() - i,
    {
        let s: &str = strings[i];
        let off = #[verifier::truncate] (table.len() as u32);
        proof {
            assert(all.take(i + 1).drop_last() =~= all.take(i as int));
            assert(all.take(i + 1).last() == s@);
            assert(utf8_of(all.take(i + 1)).drop_last() =~= utf8_of(all.take(i as int)));
            assert(utf8_of(all.take(i + 1)).last() == s.spec_bytes());
        }
        offsets.insert(s.to_owned(), off);
        let ghost before = table@;
        table.extend_from_slice(s.as_bytes());
        table.push(0);
        assert(table@ =~= before + s.spec_bytes() + seq![0u8]);
        i += 1;
    }
    proof {
        assert(all.take(i as int) =~= all);
    }
    (table, offsets)
}

} // verus!
