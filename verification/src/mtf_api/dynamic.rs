//! A buffer of equally sized structs whose fields are found by name.

use crate::endian::{read_u32_le, u32_le_at};
use crate::mtf::{
    decode, name_bytes, read_mtf, read_string, types_view, FieldDef, MTFError, TypeDef,
    TypeDefView,
};
use crate::names::NameMap;
use vstd::prelude::*;
use vstd::string::StringSliceAdditionalSpecFns;

verus! {

/// A handle on the bytes of one field of one struct, or on nothing where
/// the field was not found. It borrows the bytes from the container, so
/// that the container cannot change under it.
pub struct FieldHandle<'a> {
    /// The field's bytes, if the handle points to a field.
    pub slot: Option<&'a mut [u8]>,
}

impl<'a> FieldHandle<'a> {
    /// Creates a handle that points to nothing.
    pub fn none() -> (r: Self)
        ensures
            r.slot is None,
    {
        Self { slot: None }
    }

    /// Returns `true` if the handle points to a field.
    pub fn is_some(&self) -> (r: bool)
        ensures
            r == self.slot is Some,
    {
        self.slot.is_some()
    }

    /// The field's bytes, or `None` where the handle points to nothing.
    pub fn get(&self) -> (r: Option<&[u8]>)
        ensures
            r is Some == self.slot is Some,
            r is Some ==> r.unwrap()@ == self.slot.unwrap()@,
    {
        match &self.slot {
            Some(s) => Some(&**s),
            None => None,
        }
    }

    /// The field's bytes, for writing, or `None` where the handle points
    /// to nothing.
    pub fn get_mut(&mut self) -> (r: Option<&mut [u8]>)
        ensures
            r is Some == old(self).slot is Some,
            final(self).slot is Some == old(self).slot is Some,
            old(self).slot is Some ==> {
                &&& r.unwrap()@ == old(self).slot.unwrap()@
                &&& final(self).slot.unwrap()@ == final(r.unwrap())@
                &&& final(final(self).slot.unwrap())@ == final(old(self).slot.unwrap())@
            },
    {
        match &mut self.slot {
            Some(s) => Some(&mut **s),
            None => None,
        }
    }

    /// Overwrites the field with `value`, which must be as long as the
    /// field. A value of another length, or a handle that points to
    /// nothing, leaves everything as it is.
    pub fn set(&mut self, value: &[u8]) -> (r: &mut Self)
        ensures
            *final(self) == *final(r),
            r.slot is Some == old(self).slot is Some,
            old(self).slot is Some ==> r.slot.unwrap()@ == (if old(self).slot.unwrap()@.len()
                == value@.len() {
                value@
            } else {
                old(self).slot.unwrap()@
            }),
            old(self).slot is Some ==> final(r.slot.unwrap())@ == final(old(self).slot.unwrap())@,
    {
        match &mut self.slot {
            Some(s) => {
                if s.len() == value.len() {
                    let n = s.len();
                    let mut i: usize = 0;
                    let ghost fin = final(*s)@;
                    while i < n
                        invariant
                            final(*s)@ == fin,
                            i <= n,
                            n == s@.len(),
                            n == value@.len(),
                            forall|k: int| 0 <= k < i ==> s@[k] == value@[k],
                        decreases n - i,
                    {
                        s[i] = value[i];
                        i += 1;
                    }
                    assert(s@ =~= value@);
                }
            },
            None => {},
        }
        self
    }

    /// Overwrites the field with what `f` makes of its bytes, where that is
    /// as long as the field. A result of another length leaves the field
    /// as it is, and for a handle that points to nothing `f` is not called.
    pub fn apply<F: FnOnce(Vec<u8>) -> Vec<u8>>(&mut self, f: F) -> (r: &mut Self)
        requires
            old(self).slot is Some ==> forall|before: Vec<u8>|
                before@ == old(self).slot.unwrap()@ ==> #[trigger] f.requires((before,)),
        ensures
            *final(self) == *final(r),
            r.slot is Some == old(self).slot is Some,
            old(self).slot is Some ==> exists|before: Vec<u8>, after: Vec<u8>|
                {
                    &&& before@ == old(self).slot.unwrap()@
                    &&& #[trigger] f.ensures((before,), after)
                    &&& r.slot.unwrap()@ == (if after@.len() == before@.len() {
                        after@
                    } else {
                        before@
                    })
                },
            old(self).slot is Some ==> final(r.slot.unwrap())@ == final(old(self).slot.unwrap())@,
    {
        let current = match &self.slot {
            Some(s) => Some(vstd::slice::slice_to_vec(&**s)),
            None => None,
        };
        match current {
            Some(before) => {
                let after = f(before);
                self.set(after.as_slice());
                self
            },
            None => self,
        }
    }
}

/// The text of a name, from its bytes in the string table.
pub open spec fn name_at(strings: Seq<u8>, offset: u32) -> Result<Seq<char>, MTFError> {
    match name_bytes(strings, offset) {
        Ok(bytes) => Ok(vstd::utf8::decode_utf8(bytes)),
        Err(e) => Err(e),
    }
}

/// The map from the names of `fields` to the fields, or the error of the
/// first field whose name cannot be read. Of two fields with one name the
/// later one stays.
pub open spec fn field_table(strings: Seq<u8>, fields: Seq<FieldDef>) -> Result<
    Map<Seq<char>, FieldDef>,
    MTFError,
>
    decreases fields.len(),
{
    if fields.len() == 0 {
        Ok(Map::<Seq<char>, FieldDef>::empty())
    } else {
        match field_table(strings, fields.drop_last()) {
            Err(e) => Err(e),
            Ok(table) => match name_at(strings, fields.last().name_offset) {
                Err(e) => Err(e),
                Ok(name) => Ok(table.insert(name, fields.last())),
            },
        }
    }
}

/// What a blob says of the structs of a buffer: its first type, its string
/// table and the table of that type's fields, or the reason why the blob
/// cannot be used.
pub open spec fn describe(blob: Seq<u8>) -> Result<
    (TypeDefView, Seq<u8>, Map<Seq<char>, FieldDef>),
    MTFError,
> {
    match decode(blob) {
        Err(e) => Err(e),
        Ok((types, strings)) => {
            if types.len() == 0 {
                Err(MTFError::UnexpectedEof)
            } else {
                match field_table(strings, types[0].fields) {
                    Err(e) => Err(e),
                    Ok(table) => Ok((types[0], strings, table)),
                }
            }
        },
    }
}

/// Number of whole bytes that `bits` bits take.
pub open spec fn whole_bytes(bits: u32) -> nat {
    ((bits + 7) / 8) as nat
}

/// `s` with the bytes from `start` up to `end` replaced by those of `mid`.
pub open spec fn splice(s: Seq<u8>, start: int, end: int, mid: Seq<u8>) -> Seq<u8> {
    s.subrange(0, start) + mid + s.subrange(end, s.len() as int)
}

/// Where the structs' bytes end and the blob starts in the bytes of a file
/// that ends with the blob and its size: the structs' bytes and the blob,
/// or `None` where the file is too short for what its last four bytes say.
pub open spec fn split_file(file: Seq<u8>) -> Option<(Seq<u8>, Seq<u8>)> {
    if file.len() < 4 {
        None
    } else if u32_le_at(file, file.len() - 4) + 4 > file.len() {
        None
    } else {
        Some(
            (
                file.subrange(0, file.len() - 4 - u32_le_at(file, file.len() - 4)),
                file.subrange(
                    file.len() - 4 - u32_le_at(file, file.len() - 4),
                    file.len() - 4,
                ),
            ),
        )
    }
}

/// A buffer of structs of one type, with the type's description.
pub struct DynamicContainer {
    data: Vec<u8>,
    type_def: TypeDef,
    strings: Vec<u8>,
    struct_size: usize,
    field_map: NameMap<FieldDef>,
}

fn byte_size(bits: u32) -> (r: usize)
    ensures
        r == whole_bytes(bits),
{
    ((bits as u64 + 7) / 8) as usize
}

impl DynamicContainer {
    /// The structs' bytes.
    pub closed spec fn spec_raw(&self) -> Seq<u8> {
        self.data@
    }

    /// The type of the structs.
    pub closed spec fn spec_type(&self) -> TypeDefView {
        self.type_def@
    }

    /// The string table.
    pub closed spec fn spec_strings(&self) -> Seq<u8> {
        self.strings@
    }

    /// The fields of the type, by name.
    pub closed spec fn spec_fields(&self) -> Map<Seq<char>, FieldDef> {
        self.field_map@
    }

    /// The names of the fields, each once, in the order in which the type
    /// lists them.
    pub closed spec fn spec_field_names(&self) -> Seq<Seq<char>> {
        self.field_map.names()
    }

    /// The size of one struct is the type's size in whole bytes, and the
    /// fields are those of the type.
    pub closed spec fn wf(&self) -> bool {
        &&& self.struct_size == whole_bytes(self.type_def.size_bits)
        &&& self.field_map.wf()
        &&& field_table(self.strings@, self.type_def.fields@) == Ok::<
            Map<Seq<char>, FieldDef>,
            MTFError,
        >(self.field_map@)
    }

    /// The size of one struct in bytes.
    pub open spec fn struct_size(&self) -> nat {
        whole_bytes(self.spec_type().size_bits)
    }

    /// The number of whole structs in the buffer.
    pub open spec fn element_count(&self) -> nat {
        if self.struct_size() == 0 {
            0
        } else {
            self.spec_raw().len() / self.struct_size()
        }
    }

    /// The bytes that the field `name` of the struct at `index` takes in
    /// the buffer, as first and past-the-last position, for a caller that
    /// reads the field as a value of `size` bytes aligned to `align`:
    /// `None` where there is no such struct or field, where the field is
    /// not made of whole bytes within the struct, where its size in bytes
    /// is not `size`, or where its byte offset is no multiple of `align`.
    pub open spec fn field_span(&self, index: usize, name: Seq<char>, size: usize, align: usize)
        -> Option<(int, int)> {
        if index >= self.element_count() {
            None
        } else if !self.spec_fields().dom().contains(name) {
            None
        } else if !byte_field(self.spec_fields()[name], self.spec_type().size_bits) {
            None
        } else if whole_bytes(self.spec_fields()[name].size_bits) != size {
            None
        } else if ((self.spec_fields()[name].offset_bits / 8) as int) % (align as int) != 0 {
            None
        } else {
            Some(
                (
                    index * self.struct_size() + self.spec_fields()[name].offset_bits / 8,
                    index * self.struct_size() + self.spec_fields()[name].offset_bits / 8 + size,
                ),
            )
        }
    }

    /// The list of names holds the names of the fields, each once.
    pub proof fn lemma_field_names(&self)
        requires
            self.wf(),
        ensures
            forall|name: Seq<char>|
                self.spec_fields().dom().contains(name) <==> exists|i: int|
                    0 <= i < self.spec_field_names().len() && #[trigger] self.spec_field_names()[i]
                        == name,
            forall|i: int, j: int|
                0 <= i < j < self.spec_field_names().len() ==> self.spec_field_names()[i]
                    != self.spec_field_names()[j],
    {
        self.field_map.lemma_names();
    }

    /// Takes a buffer of structs together with the blob that describes
    /// them. The structs are those of the blob's first type.
    pub fn from_raw(data: Vec<u8>, blob: &[u8]) -> (r: Result<Self, MTFError>)
        ensures
            match describe(blob@) {
                Ok((t, strings, table)) => {
                    &&& r is Ok
                    &&& r->Ok_0.wf()
                    &&& r->Ok_0.spec_raw() == data@
                    &&& r->Ok_0.spec_type() == t
                    &&& r->Ok_0.spec_strings() == strings
                    &&& r->Ok_0.spec_fields() == table
                },
                Err(e) => r is Err && r->Err_0 == e,
            },
    {
        let (mut types, strings) = match read_mtf(blob) {
            Ok(pair) => pair,
            Err(e) => {
                return Err(e);
            },
        };
        if types.len() == 0 {
            return Err(MTFError::UnexpectedEof);
        }
        let ghost all = types_view(types@);
        let type_def = types.swap_remove(0);
        assert(type_def@ == all[0]);
        let struct_size = byte_size(type_def.size_bits);
        let mut field_map: NameMap<FieldDef> = NameMap::new();
        let mut i: usize = 0;
        while i < type_def.fields.len()
            invariant
                i <= type_def.fields@.len(),
                field_map.wf(),
                field_table(strings@, type_def.fields@.take(i as int)) == Ok::<
                    Map<Seq<char>, FieldDef>,
                    MTFError,
                >(field_map@),
                decode(blob@) == Ok::<(Seq<TypeDefView>, Seq<u8>), MTFError>((all, strings@)),
                all.len() > 0,
                all[0] == type_def@,
            decreases type_def.fields@.len() - i,
        {
            let f = &type_def.fields[i];
            proof {
                assert(type_def.fields@.take(i + 1).drop_last() =~= type_def.fields@.take(
                    i as int,
                ));
                assert(type_def.fields@.take(i + 1).last() == *f);
            }
            let name = match read_string(strings, f.name_offset) {
                Ok(n) => n,
                Err(e) => {
                    proof {
                        lemma_field_table_stops(
                            strings@,
                            type_def.fields@,
                            i + 1,
                            type_def.fields@.len() as int,
                        );
                        assert(type_def.fields@.take(type_def.fields@.len() as int)
                            =~= type_def.fields@);
                    }
                    return Err(e);
                },
            };
            proof {
                vstd::utf8::encode_utf8_decode_utf8(name@);
            }
            field_map.insert(
                name.to_owned(),
                FieldDef {
                    name_offset: f.name_offset,
                    offset_bits: f.offset_bits,
                    size_bits: f.size_bits,
                },
            );
            i += 1;
        }
        proof {
            assert(type_def.fields@.take(i as int) =~= type_def.fields@);
        }
        Ok(
            Self {
                data,
                type_def,
                strings: vstd::slice::slice_to_vec(strings),
                struct_size,
                field_map,
            },
        )
    }

    /// Takes the bytes of a file that holds structs, then the blob that
    /// describes them, then the blob's size as a 32-bit little-endian
    /// number.
    pub fn from_file(contents: &[u8]) -> (r: Result<Self, MTFError>)
        ensures
            match split_file(contents@) {
                None => r is Err && r->Err_0 == MTFError::UnexpectedEof,
                Some((data, blob)) => match describe(blob) {
                    Ok((t, strings, table)) => {
                        &&& r is Ok
                        &&& r->Ok_0.wf()
                        &&& r->Ok_0.spec_raw() == data
                        &&& r->Ok_0.spec_type() == t
                        &&& r->Ok_0.spec_strings() == strings
                        &&& r->Ok_0.spec_fields() == table
                    },
                    Err(e) => r is Err && r->Err_0 == e,
                },
            },
    {
        let len = contents.len();
        if len < 4 {
            return Err(MTFError::UnexpectedEof);
        }
        let metadata_size = read_u32_le(contents, len - 4) as usize;
        if len - 4 < metadata_size {
            return Err(MTFError::UnexpectedEof);
        }
        let data_len = len - 4 - metadata_size;
        let data = vstd::slice::slice_to_vec(vstd::slice::slice_subrange(contents, 0, data_len));
        let blob = vstd::slice::slice_subrange(contents, data_len, len - 4);
        Self::from_raw(data, blob)
    }

    /// Returns the number of whole structs in the buffer.
    pub fn len(&self) -> (r: usize)
        requires
            self.wf(),
        ensures
            r == self.element_count(),
    {
        if self.struct_size == 0 {
            0
        } else {
            self.data.len() / self.struct_size
        }
    }

    /// Returns `true` if the buffer holds no whole struct.
    pub fn is_empty(&self) -> (r: bool)
        requires
            self.wf(),
        ensures
            r == (self.element_count() == 0),
    {
        self.len() == 0
    }

    /// The name of the type, from the string table.
    pub fn name_of_type(&self) -> (r: Result<&str, MTFError>)
        ensures
            match name_bytes(self.spec_strings(), self.spec_type().name_offset) {
                Ok(bytes) => r is Ok && r->Ok_0.spec_bytes() == bytes,
                Err(e) => r is Err && r->Err_0 == e,
            },
    {
        read_string(self.strings.as_slice(), self.type_def.name_offset)
    }

    /// The names of the fields, each once, in the order in which the type
    /// lists them.
    pub fn field_names(&self) -> (r: Vec<String>)
        requires
            self.wf(),
        ensures
            r@.len() == self.spec_field_names().len(),
            forall|i: int| 0 <= i < r@.len() ==> r@[i]@ == self.spec_field_names()[i],
    {
        self.field_map.keys()
    }

    /// The structs' bytes.
    pub fn raw(&self) -> (r: &[u8])
        ensures
            r@ == self.spec_raw(),
    {
        self.data.as_slice()
    }

    /// The structs' bytes, for writing.
    pub fn raw_mut(&mut self) -> (r: &mut [u8])
        ensures
            r@ == old(self).spec_raw(),
            final(self).spec_raw() == final(r)@,
            final(self).spec_type() == old(self).spec_type(),
            final(self).spec_strings() == old(self).spec_strings(),
            final(self).spec_fields() == old(self).spec_fields(),
            final(self).spec_field_names() == old(self).spec_field_names(),
            final(self).wf() == old(self).wf(),
    {
        self.data.as_mut_slice()
    }

    fn locate(&self, index: usize, field_name: &str, size: usize, align: usize) -> (r: Option<
        (usize, usize),
    >)
        requires
            self.wf(),
            align > 0,
        ensures
            match r {
                Some((start, end)) => self.field_span(index, field_name@, size, align) == Some(
                    (start as int, end as int),
                ) && start <= end <= self.spec_raw().len(),
                None => self.field_span(index, field_name@, size, align) is None,
            },
    {
        if index >= self.len() {
            return None;
        }
        let field = match self.field_map.get(field_name) {
            Some(f) => f,
            None => {
                return None;
            },
        };
        if !is_byte_field(&field, self.type_def.size_bits) {
            return None;
        }
        let field_size = byte_size(field.size_bits);
        if field_size != size {
            return None;
        }
        let field_offset = (field.offset_bits / 8) as usize;
        if field_offset % align != 0 {
            return None;
        }
        let len = self.data.len();
        proof {
            assert(index * self.struct_size + self.struct_size <= len) by (nonlinear_arith)
                requires
                    self.struct_size > 0,
                    0 <= index < (len as int) / (self.struct_size as int),
            ;
        }
        let field_start = index * self.struct_size + field_offset;
        Some((field_start, field_start + field_size))
    }

    /// The bytes of the field `field_name` of the struct at `index`, for a
    /// caller that reads them as a value of `size` bytes aligned to
    /// `align`; `None` where [`field_span`](Self::field_span) is.
    pub fn field(&self, index: usize, field_name: &str, size: usize, align: usize) -> (r: Option<
        &[u8],
    >)
        requires
            self.wf(),
            align > 0,
        ensures
            match self.field_span(index, field_name@, size, align) {
                Some((start, end)) => r is Some && r.unwrap()@ == self.spec_raw().subrange(
                    start,
                    end,
                ),
                None => r is None,
            },
    {
        match self.locate(index, field_name, size, align) {
            Some((start, end)) => Some(
                vstd::slice::slice_subrange(self.data.as_slice(), start, end),
            ),
            None => None,
        }
    }

    /// A handle on the bytes of the field `field_name` of the struct at
    /// `index`, for a caller that writes them as a value of `size` bytes
    /// aligned to `align`. Where [`field_span`](Self::field_span) is
    /// `None`, the handle points to nothing and the container stays as it
    /// is. What is written through the handle replaces the field's bytes
    /// and no others.
    pub fn field_mut(&mut self, index: usize, field_name: &str, size: usize, align: usize) -> (r:
        FieldHandle<'_>)
        requires
            old(self).wf(),
            align > 0,
        ensures
            final(self).spec_type() == old(self).spec_type(),
            final(self).spec_strings() == old(self).spec_strings(),
            final(self).spec_fields() == old(self).spec_fields(),
            final(self).spec_field_names() == old(self).spec_field_names(),
            final(self).wf(),
            match old(self).field_span(index, field_name@, size, align) {
                Some((start, end)) => {
                    &&& r.slot is Some
                    &&& r.slot.unwrap()@ == old(self).spec_raw().subrange(start, end)
                    &&& final(self).spec_raw() == splice(
                        old(self).spec_raw(),
                        start,
                        end,
                        final(r.slot.unwrap())@,
                    )
                },
                None => r.slot is None && final(self).spec_raw() == old(self).spec_raw(),
            },
    {
        match self.locate(index, field_name, size, align) {
            Some((start, end)) => {
                let ghost before = self.data@;
                let whole = self.data.as_mut_slice();
                let (left, rest) = whole.split_at_mut(start);
                let (mid, right) = rest.split_at_mut(end - start);
                proof {
                    assert(left@ =~= before.subrange(0, start as int));
                    assert(mid@ =~= before.subrange(start as int, end as int));
                    assert(right@ =~= before.subrange(end as int, before.len() as int));
                }
                FieldHandle { slot: Some(mid) }
            },
            None => FieldHandle::none(),
        }
    }

    /// Returns a cursor over the indices of the structs, from the first.
    pub fn iter(&self) -> (r: DynamicContainerIter<'_>)
        requires
            self.wf(),
        ensures
            r.wf(),
            r.count() == self.element_count(),
            r.position() == 0,
    {
        DynamicContainerIter { container: self, index: 0 }
    }
}

/// A field can be read as bytes: it starts on a byte, takes a whole
/// number of bytes, and ends where a type of `type_bits` bits does, or
/// before.
pub open spec fn byte_field(f: FieldDef, type_bits: u32) -> bool {
    &&& f.offset_bits % 8 == 0
    &&& f.size_bits % 8 == 0
    &&& f.offset_bits + f.size_bits <= type_bits
}

/// Tells whether a field can be read as bytes.
pub fn is_byte_field(f: &FieldDef, type_bits: u32) -> (r: bool)
    ensures
        r == byte_field(*f, type_bits),
{
    f.offset_bits % 8 == 0 && f.size_bits % 8 == 0 && f.size_bits <= type_bits && f.offset_bits
        <= type_bits - f.size_bits
}

/// Replacing the bytes from `start` up to `end` by as many others keeps the
/// length and every byte outside that range, and puts the new bytes in the
/// range.
pub proof fn lemma_splice_frame(s: Seq<u8>, start: int, end: int, mid: Seq<u8>)
    requires
        0 <= start <= end <= s.len(),
        mid.len() == end - start,
    ensures
        splice(s, start, end, mid).len() == s.len(),
        splice(s, start, end, mid).subrange(start, end) == mid,
        forall|k: int| 0 <= k < start || end <= k < s.len() ==> splice(s, start, end, mid)[k] == s[k],
{
    assert(splice(s, start, end, mid).subrange(start, end) =~= mid);
}

/// The bytes of a field lie within its struct, and the struct within the
/// buffer: a span that is found starts at or after the first byte of the
/// struct at `index`, ends at or before its last, and has `size` bytes.
pub proof fn lemma_field_within_struct(
    c: &DynamicContainer,
    index: usize,
    name: Seq<char>,
    size: usize,
    align: usize,
)
    requires
        c.field_span(index, name, size, align) is Some,
    ensures
        ({
            let (start, end) = c.field_span(index, name, size, align).unwrap();
            &&& index * c.struct_size() <= start
            &&& end == start + size
            &&& end <= index * c.struct_size() + c.struct_size()
            &&& index * c.struct_size() + c.struct_size() <= c.spec_raw().len()
        }),
{
    let ss = c.struct_size() as int;
    let len = c.spec_raw().len() as int;
    assert(0 <= index * ss && index * ss + ss <= len) by (nonlinear_arith)
        requires
            ss > 0,
            0 <= index < len / ss,
    ;
}

/// What is written to one field of one struct leaves the other fields of
/// that struct, and every field of every other struct, as they were: where
/// the fields of one struct do not share a byte, a write of `value` to the
/// bytes of the field `name` of the struct at `index` does not change what
/// the field `other_name` of the struct at `other_index` reads.
pub proof fn lemma_field_isolation(
    c: &DynamicContainer,
    index: usize,
    name: Seq<char>,
    value: Seq<u8>,
    other_index: usize,
    other_name: Seq<char>,
    align: usize,
    other_align: usize,
)
    requires
        c.field_span(index, name, value.len() as usize, align) is Some,
        value.len() <= usize::MAX,
        c.field_span(
            other_index,
            other_name,
            whole_bytes(c.spec_fields()[other_name].size_bits) as usize,
            other_align,
        ) is Some,
        index != other_index || c.spec_fields()[name].offset_bits / 8 + whole_bytes(
            c.spec_fields()[name].size_bits,
        ) <= c.spec_fields()[other_name].offset_bits / 8 || c.spec_fields()[other_name].offset_bits
            / 8 + whole_bytes(c.spec_fields()[other_name].size_bits) <= c.spec_fields()[name].offset_bits
            / 8,
    ensures
        ({
            let (start, end) = c.field_span(index, name, value.len() as usize, align).unwrap();
            let (a, b) = c.field_span(
                other_index,
                other_name,
                whole_bytes(c.spec_fields()[other_name].size_bits) as usize,
                other_align,
            ).unwrap();
            splice(c.spec_raw(), start, end, value).subrange(a, b) == c.spec_raw().subrange(a, b)
        }),
{
    let ss = c.struct_size() as int;
    let (start, end) = c.field_span(index, name, value.len() as usize, align).unwrap();
    let (a, b) = c.field_span(
        other_index,
        other_name,
        whole_bytes(c.spec_fields()[other_name].size_bits) as usize,
        other_align,
    ).unwrap();
    assert(0 <= index * ss && 0 <= other_index * ss) by (nonlinear_arith)
        requires
            0 <= ss,
            0 <= index,
            0 <= other_index,
    ;
    if index < other_index {
        assert((index + 1) * ss <= other_index * ss) by (nonlinear_arith)
            requires
                index + 1 <= other_index,
                0 <= ss,
        ;
        assert((index + 1) * ss == index * ss + ss) by (nonlinear_arith);
    } else if other_index < index {
        assert((other_index + 1) * ss <= index * ss) by (nonlinear_arith)
            requires
                other_index + 1 <= index,
                0 <= ss,
        ;
        assert((other_index + 1) * ss == other_index * ss + ss) by (nonlinear_arith);
    }
    lemma_field_within_struct(c, index, name, value.len() as usize, align);
    lemma_field_within_struct(
        c,
        other_index,
        other_name,
        whole_bytes(c.spec_fields()[other_name].size_bits) as usize,
        other_align,
    );
    lemma_splice_frame(c.spec_raw(), start, end, value);
    assert(splice(c.spec_raw(), start, end, value).subrange(a, b) =~= c.spec_raw().subrange(a, b));
}

proof fn lemma_field_table_stops(strings: Seq<u8>, fields: Seq<FieldDef>, less: int, more: int)
    requires
        0 <= less <= more <= fields.len(),
        field_table(strings, fields.take(less)) is Err,
    ensures
        field_table(strings, fields.take(more)) == field_table(strings, fields.take(less)),
    decreases more - less,
{
    if less < more {
        lemma_field_table_stops(strings, fields, less, more - 1);
        assert(fields.take(more).drop_last() =~= fields.take(more - 1));
    }
}

/// A cursor over the indices of the structs of a [`DynamicContainer`].
pub struct DynamicContainerIter<'a> {
    container: &'a DynamicContainer,
    index: usize,
}

impl<'a> DynamicContainerIter<'a> {
    /// The number of structs of the container.
    pub closed spec fn count(&self) -> nat {
        self.container.element_count()
    }

    /// The index that `next` returns.
    pub closed spec fn position(&self) -> nat {
        self.index as nat
    }

    /// The container is well-formed.
    pub closed spec fn wf(&self) -> bool {
        self.container.wf()
    }

    /// Returns the index under the cursor and moves on, or `None` once
    /// every index has been returned.
    pub fn next(&mut self) -> (r: Option<usize>)
        requires
            old(self).wf(),
        ensures
            final(self).wf(),
            final(self).count() == old(self).count(),
            old(self).position() < old(self).count() ==> r == Some(old(self).position() as usize)
                && final(self).position() == old(self).position() + 1,
            old(self).position() >= old(self).count() ==> r is None && final(self).position()
                == old(self).position(),
    {
        if self.index < self.container.len() {
            let idx = self.index;
            self.index += 1;
            Some(idx)
        } else {
            None
        }
    }

    /// Returns the number of indices left, as both bounds.
    pub fn size_hint(&self) -> (r: (usize, Option<usize>))
        requires
            self.wf(),
        ensures
            r.0 == if self.position() <= self.count() {
                self.count() - self.position()
            } else {
                0
            },
            r.1 == Some(r.0),
    {
        let len = self.container.len();
        let remaining = if self.index <= len {
            len - self.index
        } else {
            0
        };
        (remaining, Some(remaining))
    }
}

} // verus!
