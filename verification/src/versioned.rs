//! The decoder of the versioned format: its failures, the integers it
//! reads, and the walk over the input that the type catalogue drives.

use vstd::prelude::*;
use vstd::slice::{slice_subrange, slice_to_vec};
use vstd::string::StringSliceAdditionalSpecFns;
use vstd::utf8::{encode_utf8_decode_utf8, encode_utf8_valid_utf8, valid_utf8};

use crate::format::{
    find_choice_arm, find_struct_field, refers_within, valid_catalogue, IntBounds, Struct,
    StructField, TypeId, TypeInfo,
};
use crate::value::{dict_insert, entries_of, trees_of, Tree, Value};
use crate::vlq::{lemma_vlq_extent, read_vlq, vlq_at, vlq_value, RawVlq, Vlq};
use crate::wire::{
    after_kind, blob_body, blob_tree, decode_spec, int_body, int_tree, number_at, parse_fields,
    parse_items, parse_value, space, struct_body, Parsed,
};

verus! {

/// What is wrong with the input of the decoder.
#[derive(Clone, Copy, Debug, PartialEq, Eq)]
pub enum ErrorCode {
    /// The input ends before the value does.
    UnexpectedEof,
    /// A value starts with a byte that names no kind.
    BadKindByte(u8),
    /// A value of kind `got_kind` stands where the type `expected` of the
    /// catalogue is due.
    TypeMismatch { expected: TypeId, got_kind: u8 },
    /// The struct due has no field with this tag.
    BadTag(i64),
    /// The choice due has no arm with this selector.
    UnknownChoice(u32),
    /// A number does not fit the width it is read into.
    IntOutOfRange,
    /// A quantity with the sign bit stands where an unsigned number is due.
    NegativeInUnsigned,
    /// Bytes follow the value that is the whole input.
    TrailingBytes,
}

/// A failure of the decoder.
#[derive(Clone, Copy, Debug, PartialEq, Eq)]
pub enum Error {
    /// The input is wrong: what is wrong, and at which byte of the input.
    SyntaxError(ErrorCode, usize),
    /// A record got a field that it does not have.
    UnknownFieldError,
    /// A record did not get the field of this name.
    MissingFieldError(&'static str),
}

/// A wrong input as contracts speak of it.
pub struct Fault {
    pub code: ErrorCode,
    pub offset: nat,
}

/// The failure that reports `fault`.
pub open spec fn fault_error(fault: Fault) -> Error {
    Error::SyntaxError(fault.code, fault.offset as usize)
}

/// The input ended too early: reported at its end.
pub open spec fn eof(input: Seq<u8>) -> Fault {
    Fault { code: ErrorCode::UnexpectedEof, offset: input.len() }
}

/// The unsigned number up to `max` that `vlq` stands for. A quantity with
/// the sign bit is refused, whatever its magnitude.
pub open spec fn unsigned_of(vlq: Vlq, max: int) -> Result<int, ErrorCode> {
    if vlq.negative {
        Err(ErrorCode::NegativeInUnsigned)
    } else if vlq.magnitude > max {
        Err(ErrorCode::IntOutOfRange)
    } else {
        Ok(vlq.magnitude as int)
    }
}

/// The signed number from `min` to `max` that `vlq` stands for.
pub open spec fn signed_of(vlq: Vlq, min: int, max: int) -> Result<int, ErrorCode> {
    if vlq_value(vlq) < min || vlq_value(vlq) > max {
        Err(ErrorCode::IntOutOfRange)
    } else {
        Ok(vlq_value(vlq))
    }
}

/// An integer type that a quantity can be read into.
pub trait PrimitiveInt: Sized {
    /// The number of this type that `vlq` stands for, or why there is none.
    spec fn of_vlq(vlq: Vlq) -> Result<Self, ErrorCode>;

    /// Converts a quantity read from the wire.
    fn from_vint(raw: RawVlq) -> (out: Result<Self, ErrorCode>)
        ensures
            forall|vlq: Vlq| #[trigger] raw.holds(vlq) ==> out == Self::of_vlq(vlq),
    ;
}

/// Converts a quantity to an unsigned number up to `max`.
fn unsigned_from(raw: RawVlq, max: u64) -> (out: Result<u64, ErrorCode>)
    ensures
        forall|vlq: Vlq| #[trigger]
            raw.holds(vlq) ==> match unsigned_of(vlq, max as int) {
                Ok(n) => out == Ok::<u64, ErrorCode>(n as u64) && 0 <= n <= max,
                Err(code) => out == Err::<u64, ErrorCode>(code),
            },
{
    if raw.negative {
        return Err(ErrorCode::NegativeInUnsigned);
    }
    match raw.magnitude {
        Some(m) => if m > max {
            Err(ErrorCode::IntOutOfRange)
        } else {
            Ok(m)
        },
        None => Err(ErrorCode::IntOutOfRange),
    }
}

/// Converts a quantity to a signed number from `min` to `max`.
fn signed_from(raw: RawVlq, min: i64, max: i64) -> (out: Result<i64, ErrorCode>)
    requires
        min <= 0 <= max,
    ensures
        forall|vlq: Vlq| #[trigger]
            raw.holds(vlq) ==> match signed_of(vlq, min as int, max as int) {
                Ok(n) => out == Ok::<i64, ErrorCode>(n as i64) && min <= n <= max,
                Err(code) => out == Err::<i64, ErrorCode>(code),
            },
{
    match raw.magnitude {
        Some(m) => {
            if raw.negative {
                // -min may be one more than the largest i64
                if m > 0x8000_0000_0000_0000 {
                    Err(ErrorCode::IntOutOfRange)
                } else if m == 0x8000_0000_0000_0000 {
                    if min == i64::MIN {
                        Ok(i64::MIN)
                    } else {
                        Err(ErrorCode::IntOutOfRange)
                    }
                } else {
                    let value: i64 = -(m as i64);
                    if value < min {
                        Err(ErrorCode::IntOutOfRange)
                    } else {
                        Ok(value)
                    }
                }
            } else if m > max as u64 {
                Err(ErrorCode::IntOutOfRange)
            } else {
                Ok(m as i64)
            }
        },
        None => Err(ErrorCode::IntOutOfRange),
    }
}

impl PrimitiveInt for u8 {
    open spec fn of_vlq(vlq: Vlq) -> Result<u8, ErrorCode> {
        match unsigned_of(vlq, u8::MAX as int) {
            Ok(n) => Ok(n as u8),
            Err(code) => Err(code),
        }
    }

    fn from_vint(raw: RawVlq) -> (out: Result<u8, ErrorCode>) {
        match unsigned_from(raw, u8::MAX as u64) {
            Ok(n) => Ok(n as u8),
            Err(code) => Err(code),
        }
    }
}

impl PrimitiveInt for u32 {
    open spec fn of_vlq(vlq: Vlq) -> Result<u32, ErrorCode> {
        match unsigned_of(vlq, u32::MAX as int) {
            Ok(n) => Ok(n as u32),
            Err(code) => Err(code),
        }
    }

    fn from_vint(raw: RawVlq) -> (out: Result<u32, ErrorCode>) {
        match unsigned_from(raw, u32::MAX as u64) {
            Ok(n) => Ok(n as u32),
            Err(code) => Err(code),
        }
    }
}

impl PrimitiveInt for u64 {
    open spec fn of_vlq(vlq: Vlq) -> Result<u64, ErrorCode> {
        match unsigned_of(vlq, u64::MAX as int) {
            Ok(n) => Ok(n as u64),
            Err(code) => Err(code),
        }
    }

    fn from_vint(raw: RawVlq) -> (out: Result<u64, ErrorCode>) {
        unsigned_from(raw, u64::MAX)
    }
}

impl PrimitiveInt for usize {
    open spec fn of_vlq(vlq: Vlq) -> Result<usize, ErrorCode> {
        match unsigned_of(vlq, usize::MAX as int) {
            Ok(n) => Ok(n as usize),
            Err(code) => Err(code),
        }
    }

    fn from_vint(raw: RawVlq) -> (out: Result<usize, ErrorCode>) {
        match unsigned_from(raw, usize::MAX as u64) {
            Ok(n) => Ok(n as usize),
            Err(code) => Err(code),
        }
    }
}

impl PrimitiveInt for i32 {
    open spec fn of_vlq(vlq: Vlq) -> Result<i32, ErrorCode> {
        match signed_of(vlq, i32::MIN as int, i32::MAX as int) {
            Ok(n) => Ok(n as i32),
            Err(code) => Err(code),
        }
    }

    fn from_vint(raw: RawVlq) -> (out: Result<i32, ErrorCode>) {
        match signed_from(raw, i32::MIN as i64, i32::MAX as i64) {
            Ok(n) => Ok(n as i32),
            Err(code) => Err(code),
        }
    }
}

impl PrimitiveInt for i64 {
    open spec fn of_vlq(vlq: Vlq) -> Result<i64, ErrorCode> {
        match signed_of(vlq, i64::MIN as int, i64::MAX as int) {
            Ok(n) => Ok(n as i64),
            Err(code) => Err(code),
        }
    }

    fn from_vint(raw: RawVlq) -> (out: Result<i64, ErrorCode>) {
        signed_from(raw, i64::MIN, i64::MAX)
    }
}

/// The number that `bytes` spell, high byte first.
pub open spec fn be_value(bytes: Seq<u8>) -> nat
    decreases bytes.len(),
{
    if bytes.len() == 0 {
        0
    } else {
        be_value(bytes.drop_last()) * 256 + bytes.last() as nat
    }
}

/// 256 to the power `n`.
pub open spec fn pow256(n: nat) -> nat
    decreases n,
{
    if n == 0 {
        1
    } else {
        256 * pow256((n - 1) as nat)
    }
}

proof fn lemma_pow256_bound(n: nat)
    requires
        n <= 7,
    ensures
        pow256(n) <= 0x100_0000_0000_0000,
        n > 0 ==> pow256(n) == 256 * pow256((n - 1) as nat),
    decreases n,
{
    reveal_with_fuel(pow256, 8);
}

/// The error of `core::str::from_utf8`.
#[verifier::external_type_specification]
#[verifier::external_body]
pub struct ExUtf8Error(core::str::Utf8Error);

/// `core::str::from_utf8` gives the text whose UTF-8 form is `v`, and fails
/// exactly where `v` is not valid UTF-8.
pub assume_specification[ core::str::from_utf8 ](v: &[u8]) -> (out: Result<&str, core::str::Utf8Error>)
    ensures
        out is Ok <==> valid_utf8(v@),
        out matches Ok(text) ==> text.spec_bytes() == v@,
;

/// The value of a blob that holds `bytes`.
pub fn blob_value(bytes: Vec<u8>) -> (value: Value)
    ensures
        value@ == blob_tree(bytes@),
{
    match core::str::from_utf8(bytes.as_slice()) {
        Ok(text) => {
            proof {
                encode_utf8_decode_utf8(text@);
                encode_utf8_valid_utf8(text@);
            }
            Value::String(text.to_owned())
        },
        Err(_) => Value::Bytes(bytes),
    }
}

/// The value of an integer whose type starts at `min` and whose quantity
/// stands for `offset`.
pub fn int_value(min: i64, offset: i64) -> (out: Result<Value, ErrorCode>)
    ensures
        match int_tree(min, offset) {
            Ok(tree) => out matches Ok(value) && value@ == tree,
            Err(code) => out matches Err(got) && got == code,
        },
{
    match min.checked_add(offset) {
        Some(sum) => if sum < 0 {
            Ok(Value::I64(sum))
        } else {
            Ok(Value::U64(sum as u64))
        },
        None => Err(ErrorCode::IntOutOfRange),
    }
}

/// A decoder over one input: the bytes, the place reached in them, the
/// catalogue, and the stack of the types that the values being decoded
/// have. The top of the stack is the type of the value that comes next.
pub struct Deserializer<'a> {
    offset: usize,
    buffer: Vec<u8>,
    typeinfos: &'a [TypeInfo],
    typestack: Vec<TypeId>,
}

impl<'a> Deserializer<'a> {
    /// The bytes being decoded.
    pub closed spec fn input(&self) -> Seq<u8> {
        self.buffer@
    }

    /// Number of bytes decoded so far.
    pub closed spec fn position(&self) -> nat {
        self.offset as nat
    }

    /// The catalogue in use.
    pub closed spec fn catalogue(&self) -> Seq<TypeInfo> {
        self.typeinfos@
    }

    /// The stack of types, the top last.
    pub closed spec fn stack(&self) -> Seq<TypeId> {
        self.typestack@
    }

    /// The type of the value that comes next.
    pub open spec fn top(&self) -> TypeId {
        self.stack().last()
    }

    /// Well-formedness: the catalogue is valid, the place reached lies
    /// within the input, and the stack is not empty and holds types of the
    /// catalogue only.
    pub closed spec fn wf(&self) -> bool {
        &&& valid_catalogue(self.typeinfos@)
        &&& self.offset <= self.buffer@.len()
        &&& self.typestack@.len() > 0
        &&& forall|j: int|
            0 <= j < self.typestack@.len() ==> (#[trigger] self.typestack@[j])
                < self.typeinfos@.len()
    }

    /// What well-formedness says, over the public names.
    pub proof fn lemma_wf(&self)
        requires
            self.wf(),
        ensures
            valid_catalogue(self.catalogue()),
            self.position() <= self.input().len(),
            self.stack().len() > 0,
            self.top() < self.catalogue().len(),
    {
    }

    /// Whether `after` is `before` moved on, with nothing else changed.
    pub open spec fn moved_on(before: &Self, after: &Self) -> bool {
        &&& after.wf()
        &&& after.input() == before.input()
        &&& after.catalogue() == before.catalogue()
        &&& after.stack() == before.stack()
        &&& after.position() >= before.position()
    }

    /// A decoder at the start of `buf`, which is to hold a value of the
    /// type `root_typeinfo` of the catalogue `typeinfos`.
    pub fn new(buf: &[u8], typeinfos: &'a [TypeInfo], root_typeinfo: usize) -> (de: Deserializer<
        'a,
    >)
        requires
            valid_catalogue(typeinfos@),
            root_typeinfo < typeinfos@.len(),
            root_typeinfo <= u32::MAX,
        ensures
            de.wf(),
            de.input() == buf@,
            de.position() == 0,
            de.catalogue() == typeinfos@,
            de.stack() == seq![root_typeinfo as TypeId],
    {
        let mut typestack: Vec<TypeId> = Vec::new();
        typestack.push(root_typeinfo as TypeId);
        assert(typestack@ =~= seq![root_typeinfo as TypeId]);
        Deserializer { offset: 0, buffer: slice_to_vec(buf), typeinfos, typestack }
    }

    /// Number of bytes decoded so far.
    pub fn offset(&self) -> (at: usize)
        ensures
            at == self.position(),
    {
        self.offset
    }

    /// Number of types on the stack.
    pub fn depth(&self) -> (depth: usize)
        ensures
            depth == self.stack().len(),
    {
        self.typestack.len()
    }

    /// The descriptor of the type `typeid`.
    pub fn typeinfo(&self, typeid: TypeId) -> (info: &'a TypeInfo)
        requires
            typeid < self.catalogue().len(),
        ensures
            *info == self.catalogue()[typeid as int],
    {
        &self.typeinfos[typeid as usize]
    }

    /// The next byte, which stays unread; nothing at the end of the input.
    pub fn peek(&self) -> (out: Option<u8>)
        ensures
            self.position() < self.input().len() ==> out == Some(
                self.input()[self.position() as int],
            ),
            self.position() >= self.input().len() ==> out is None,
    {
        if self.offset < self.buffer.len() {
            Some(self.buffer[self.offset])
        } else {
            None
        }
    }

    /// Reads the next byte; at the end of the input nothing moves.
    pub fn read_byte(&mut self) -> (out: Result<u8, Error>)
        requires
            old(self).wf(),
        ensures
            Self::moved_on(old(self), final(self)),
            old(self).position() < old(self).input().len() ==> out == Ok::<u8, Error>(
                old(self).input()[old(self).position() as int],
            ) && final(self).position() == old(self).position() + 1,
            old(self).position() >= old(self).input().len() ==> out == Err::<u8, Error>(
                fault_error(eof(old(self).input())),
            ) && final(self).position() == old(self).position(),
    {
        if self.buffer.len() <= self.offset {
            return Err(Error::SyntaxError(ErrorCode::UnexpectedEof, self.buffer.len()));
        }
        let byte = self.buffer[self.offset];
        self.offset += 1;
        Ok(byte)
    }

    /// The type of the value that comes next.
    pub fn top_typeinfo(&self) -> (typeid: TypeId)
        requires
            self.wf(),
        ensures
            typeid == self.top(),
            typeid < self.catalogue().len(),
    {
        self.typestack[self.typestack.len() - 1]
    }

    /// Reads a quantity into the integer type `T`; on a failure nothing
    /// moves.
    pub fn parse_vint<T: PrimitiveInt>(&mut self) -> (out: Result<T, Error>)
        requires
            old(self).wf(),
        ensures
            Self::moved_on(old(self), final(self)),
            match number_at::<T>(old(self).input(), old(self).position()) {
                Ok(number) => {
                    &&& out matches Ok(value) && value == number.value
                    &&& final(self).position() == old(self).position() + number.len
                    &&& number.len >= 1
                },
                Err(fault) => {
                    &&& out matches Err(e) && e == fault_error(fault)
                    &&& final(self).position() == old(self).position()
                },
            },
    {
        let pre_offset = self.offset;
        proof {
            lemma_vlq_extent(self.buffer@, pre_offset as nat);
        }
        match read_vlq(self.buffer.as_slice(), pre_offset) {
            None => Err(Error::SyntaxError(ErrorCode::UnexpectedEof, self.buffer.len())),
            Some(raw) => {
                assert(raw.holds(vlq_at(self.buffer@, pre_offset as nat)->Some_0));
                match T::from_vint(raw) {
                    Ok(value) => {
                        assert(pre_offset + raw.len <= self.buffer.len());
                        self.offset = pre_offset + raw.len;
                        Ok(value)
                    },
                    Err(code) => Err(Error::SyntaxError(code, pre_offset)),
                }
            },
        }
    }

    /// Reads `bitlen` bits, which must be whole bytes and at most seven of
    /// them, as one number, high byte first; where fewer are left nothing
    /// moves.
    pub fn read_bits(&mut self, bitlen: u8) -> (out: Result<i64, Error>)
        requires
            old(self).wf(),
            bitlen % 8 == 0,
            bitlen <= 56,
        ensures
            Self::moved_on(old(self), final(self)),
            old(self).position() + bitlen / 8 <= old(self).input().len() ==> out == Ok::<
                i64,
                Error,
            >(
                be_value(
                    old(self).input().subrange(
                        old(self).position() as int,
                        old(self).position() + bitlen / 8,
                    ),
                ) as i64,
            ) && final(self).position() == old(self).position() + bitlen / 8,
            old(self).position() + bitlen / 8 > old(self).input().len() ==> out == Err::<
                i64,
                Error,
            >(fault_error(eof(old(self).input()))) && final(self).position() == old(self).position(),
    {
        let start = self.offset;
        let count: usize = (bitlen / 8) as usize;
        if count > self.buffer.len() - start {
            return Err(Error::SyntaxError(ErrorCode::UnexpectedEof, self.buffer.len()));
        }
        let mut output: i64 = 0;
        let mut i: usize = 0;
        while i < count
            invariant
                i <= count <= 7,
                start + count <= self.buffer.len(),
                0 <= output < pow256(i as nat),
                output == be_value(self.buffer@.subrange(start as int, start + i)),
            decreases count - i,
        {
            proof {
                let more = self.buffer@.subrange(start as int, start + i + 1);
                assert(more.drop_last() =~= self.buffer@.subrange(start as int, start + i));
                lemma_pow256_bound((i + 1) as nat);
            }
            output = output * 256 + self.buffer[start + i] as i64;
            i = i + 1;
        }
        self.offset = start + count;
        Ok(output)
    }

    /// Reads the next `count` bytes; where fewer are left nothing moves.
    pub fn read_bytes(&mut self, count: usize) -> (out: Result<Vec<u8>, Error>)
        requires
            old(self).wf(),
        ensures
            Self::moved_on(old(self), final(self)),
            old(self).position() + count <= old(self).input().len() ==> (out matches Ok(bytes)
                && bytes@ == old(self).input().subrange(
                old(self).position() as int,
                old(self).position() + count,
            ) && final(self).position() == old(self).position() + count),
            old(self).position() + count > old(self).input().len() ==> out == Err::<
                Vec<u8>,
                Error,
            >(fault_error(eof(old(self).input()))) && final(self).position() == old(self).position(),
    {
        let start = self.offset;
        if count > self.buffer.len() - start {
            return Err(Error::SyntaxError(ErrorCode::UnexpectedEof, self.buffer.len()));
        }
        let bytes = slice_to_vec(slice_subrange(self.buffer.as_slice(), start, start + count));
        self.offset = start + count;
        Ok(bytes)
    }
}

impl<'a> Deserializer<'a> {
    /// Whether `out` and `after` are what `before` gives where `want` is
    /// decoded from it: the value and the place behind it, or the failure;
    /// the stack as it was either way.
    pub open spec fn gave(
        before: &Self,
        after: &Self,
        want: Result<Parsed, Fault>,
        out: Result<Value, Error>,
    ) -> bool {
        &&& Self::moved_on(before, after)
        &&& match want {
            Ok(parsed) => out matches Ok(value) && value@ == parsed.tree && after.position()
                == before.position() + parsed.len,
            Err(fault) => out matches Err(e) && e == fault_error(fault),
        }
    }

    /// Whether `out` and `after` are what decoding one value of the type
    /// `typeid` from `before` gives.
    pub open spec fn visited(
        before: &Self,
        after: &Self,
        typeid: TypeId,
        out: Result<Value, Error>,
    ) -> bool {
        Self::gave(
            before,
            after,
            parse_value(before.catalogue(), typeid, before.input(), before.position()),
            out,
        )
    }

    /// Reads the kind byte of the value that comes next, which must be
    /// `expected`; on a failure nothing moves.
    pub fn expect_skip(&mut self, expected: u8) -> (out: Result<(), Error>)
        requires
            old(self).wf(),
        ensures
            Self::moved_on(old(self), final(self)),
            match after_kind(
                old(self).input(),
                old(self).position(),
                old(self).top(),
                expected,
                Ok(Parsed { tree: Tree::Null, len: 1 }),
            ) {
                Ok(_) => out is Ok && final(self).position() == old(self).position() + 1,
                Err(fault) => {
                    &&& out matches Err(e) && e == fault_error(fault)
                    &&& final(self).position() == old(self).position()
                },
            },
    {
        let at = self.offset;
        let typeid = self.top_typeinfo();
        let got = self.read_byte()?;
        if got == expected {
            Ok(())
        } else {
            self.offset = at;
            if got > 9 {
                Err(Error::SyntaxError(ErrorCode::BadKindByte(got), at))
            } else {
                Err(
                    Error::SyntaxError(
                        ErrorCode::TypeMismatch { expected: typeid, got_kind: got },
                        at,
                    ),
                )
            }
        }
    }

    /// Decodes an integer whose type has the bounds `bounds`.
    pub fn integer(&mut self, bounds: IntBounds) -> (out: Result<Value, Error>)
        requires
            old(self).wf(),
        ensures
            Self::gave(
                old(self),
                final(self),
                after_kind(
                    old(self).input(),
                    old(self).position(),
                    old(self).top(),
                    0x09,
                    int_body(old(self).input(), old(self).position(), bounds.min),
                ),
                out,
            ),
    {
        self.expect_skip(0x09)?;
        let at = self.offset;
        let offset: i64 = self.parse_vint::<i64>()?;
        match int_value(bounds.min, offset) {
            Ok(value) => Ok(value),
            Err(code) => Err(Error::SyntaxError(code, at)),
        }
    }

    /// Decodes a blob; the bounds of its length are not on the wire.
    pub fn blob(&mut self, len: IntBounds) -> (out: Result<Value, Error>)
        requires
            old(self).wf(),
        ensures
            Self::gave(
                old(self),
                final(self),
                after_kind(
                    old(self).input(),
                    old(self).position(),
                    old(self).top(),
                    0x02,
                    blob_body(old(self).input(), old(self).position()),
                ),
                out,
            ),
    {
        self.expect_skip(0x02)?;
        let length: u32 = self.parse_vint::<u32>()?;
        let bytes = self.read_bytes(length as usize)?;
        Ok(blob_value(bytes))
    }

    /// Decodes a struct with the fields of `st`.
    pub fn struct_(&mut self, st: &Struct) -> (out: Result<Value, Error>)
        requires
            old(self).wf(),
            forall|j: int|
                0 <= j < st.fields@.len() ==> (#[trigger] st.fields@[j]).1 < old(self).catalogue()
                    .len(),
        ensures
            Self::gave(
                old(self),
                final(self),
                after_kind(
                    old(self).input(),
                    old(self).position(),
                    old(self).top(),
                    0x05,
                    struct_body(
                        old(self).catalogue(),
                        st.fields@,
                        old(self).input(),
                        old(self).position(),
                    ),
                ),
                out,
            ),
        decreases space(old(self).input(), old(self).position()), 0nat,
    {
        self.expect_skip(0x05)?;
        let length: u32 = self.parse_vint::<u32>()?;
        let entries = self.visit_map(&st.fields, length)?;
        Ok(Value::Dict(entries))
    }

    /// Decodes the value that comes next, whose type is the top of the
    /// stack. The stack is the same afterwards, whether the value could be
    /// decoded or not.
    pub fn visit(&mut self) -> (out: Result<Value, Error>)
        requires
            old(self).wf(),
        ensures
            Self::visited(old(self), final(self), old(self).top(), out),
        decreases space(old(self).input(), old(self).position()), 1nat,
    {
        let start = self.offset;
        let typeid = self.top_typeinfo();
        if start >= self.buffer.len() {
            return Err(Error::SyntaxError(ErrorCode::UnexpectedEof, self.buffer.len()));
        }
        let kind = self.buffer[start];
        if kind > 9 {
            return Err(Error::SyntaxError(ErrorCode::BadKindByte(kind), start));
        }
        let catalogue: &'a [TypeInfo] = self.typeinfos;
        match &catalogue[typeid as usize] {
            TypeInfo::Array { typeid: element, .. } => {
                self.expect_skip(0x00)?;
                let count: u32 = self.parse_vint::<u32>()?;
                let items = self.visit_seq(*element, count)?;
                Ok(Value::Array(items))
            },
            TypeInfo::BitArray { .. } => {
                self.expect_skip(0x01)?;
                let bits: u32 = self.parse_vint::<u32>()?;
                let count: usize = ((bits as u64 + 7) / 8) as usize;
                let bytes = self.read_bytes(count)?;
                let mut pair: Vec<Value> = Vec::new();
                pair.push(Value::U64(bits as u64));
                pair.push(Value::Bytes(bytes));
                proof {
                    assert(trees_of(pair@) =~= seq![Tree::U64(bits as u64), Tree::Bytes(bytes@)]);
                }
                Ok(Value::Array(pair))
            },
            TypeInfo::Blob { len } => self.blob(*len),
            TypeInfo::Choice { types, .. } => {
                self.expect_skip(0x03)?;
                let at = self.offset;
                let selector: u32 = self.parse_vint::<u32>()?;
                let arm = match find_choice_arm(types, selector) {
                    Some(arm) => arm,
                    None => {
                        return Err(Error::SyntaxError(ErrorCode::UnknownChoice(selector), at));
                    },
                };
                let inner = self.instance(types[arm].2)?;
                let mut entries: Vec<(String, Value)> = Vec::new();
                entries.push((types[arm].1.to_owned(), inner));
                proof {
                    assert(entries_of(entries@) =~= seq![(types@[arm as int].1@, inner@)]);
                }
                Ok(Value::Dict(entries))
            },
            TypeInfo::Optional { typeid: element } => {
                self.expect_skip(0x04)?;
                let present = self.read_byte()?;
                if present == 0 {
                    return Ok(Value::Null);
                }
                let inner = self.instance(*element)?;
                Ok(Value::Optional(Box::new(inner)))
            },
            TypeInfo::Struct(st) => self.struct_(st),
            TypeInfo::Bool => {
                self.expect_skip(0x06)?;
                let byte = self.read_byte()?;
                Ok(Value::Boolean(byte != 0))
            },
            TypeInfo::FourCC => {
                self.expect_skip(0x07)?;
                let bytes = self.read_bytes(4)?;
                Ok(Value::Bytes(bytes))
            },
            TypeInfo::Real32 => {
                self.expect_skip(0x07)?;
                let bytes = self.read_bytes(4)?;
                Ok(Value::Bytes(bytes))
            },
            TypeInfo::Real64 => {
                self.expect_skip(0x08)?;
                let bytes = self.read_bytes(8)?;
                Ok(Value::Bytes(bytes))
            },
            TypeInfo::Int { bounds } => self.integer(*bounds),
            TypeInfo::Null => Err(
                Error::SyntaxError(
                    ErrorCode::TypeMismatch { expected: typeid, got_kind: kind },
                    start,
                ),
            ),
        }
    }

    /// Decodes the value that is the whole input, as far as it goes: the
    /// value of the root type at the start of the input.
    pub fn root(&mut self) -> (out: Result<Value, Error>)
        requires
            old(self).wf(),
        ensures
            Self::visited(old(self), final(self), old(self).top(), out),
    {
        self.visit()
    }

    /// Decodes the value that comes next as one of the type `typeid`: the
    /// type is pushed for the time of the decoding and popped again.
    pub fn instance(&mut self, typeid: TypeId) -> (out: Result<Value, Error>)
        requires
            old(self).wf(),
            typeid < old(self).catalogue().len(),
        ensures
            Self::visited(old(self), final(self), typeid, out),
        decreases space(old(self).input(), old(self).position()), 2nat,
    {
        self.typestack.push(typeid);
        let out = self.visit();
        self.typestack.pop();
        proof {
            assert(self.typestack@ =~= old(self).typestack@);
        }
        out
    }

    /// Decodes `count` values of the type `typeid`, one after the other.
    pub fn visit_seq(&mut self, typeid: TypeId, count: u32) -> (out: Result<Vec<Value>, Error>)
        requires
            old(self).wf(),
            typeid < old(self).catalogue().len(),
        ensures
            Self::moved_on(old(self), final(self)),
            match parse_items(
                old(self).catalogue(),
                typeid,
                old(self).input(),
                old(self).position(),
                count as nat,
                Seq::empty(),
            ) {
                Ok((items, end)) => {
                    &&& out matches Ok(values) && trees_of(values@) == items
                    &&& final(self).position() == end
                },
                Err(fault) => out matches Err(e) && e == fault_error(fault),
            },
        decreases space(old(self).input(), old(self).position()), 3nat,
    {
        let mut values: Vec<Value> = Vec::new();
        let mut i: u32 = 0;
        proof {
            assert(trees_of(values@) =~= Seq::<Tree>::empty());
        }
        while i < count
            invariant
                i <= count,
                typeid < self.catalogue().len(),
                Self::moved_on(old(self), self),
                parse_items(
                    old(self).catalogue(),
                    typeid,
                    old(self).input(),
                    old(self).position(),
                    count as nat,
                    Seq::empty(),
                ) == parse_items(
                    self.catalogue(),
                    typeid,
                    self.input(),
                    self.position(),
                    (count - i) as nat,
                    trees_of(values@),
                ),
            decreases count - i,
        {
            let ghost done = values@;
            let value = self.instance(typeid)?;
            values.push(value);
            proof {
                assert(trees_of(values@) =~= trees_of(done).push(value@));
            }
            i = i + 1;
        }
        Ok(values)
    }

    /// Decodes `count` fields of a struct with the fields `fields`: each a
    /// tag and the value of the field with that tag.
    pub fn visit_map(&mut self, fields: &Vec<StructField>, count: u32) -> (out: Result<
        Vec<(String, Value)>,
        Error,
    >)
        requires
            old(self).wf(),
            forall|j: int|
                0 <= j < fields@.len() ==> (#[trigger] fields@[j]).1 < old(self).catalogue().len(),
        ensures
            Self::moved_on(old(self), final(self)),
            match parse_fields(
                old(self).catalogue(),
                fields@,
                old(self).input(),
                old(self).position(),
                count as nat,
                Seq::empty(),
            ) {
                Ok((entries, end)) => {
                    &&& out matches Ok(got) && entries_of(got@) == entries
                    &&& final(self).position() == end
                },
                Err(fault) => out matches Err(e) && e == fault_error(fault),
            },
        decreases space(old(self).input(), old(self).position()), 3nat,
    {
        let mut entries: Vec<(String, Value)> = Vec::new();
        let mut i: u32 = 0;
        proof {
            assert(entries_of(entries@) =~= Seq::<(Seq<char>, Tree)>::empty());
        }
        while i < count
            invariant
                i <= count,
                forall|j: int|
                    0 <= j < fields@.len() ==> (#[trigger] fields@[j]).1 < self.catalogue().len(),
                Self::moved_on(old(self), self),
                parse_fields(
                    old(self).catalogue(),
                    fields@,
                    old(self).input(),
                    old(self).position(),
                    count as nat,
                    Seq::empty(),
                ) == parse_fields(
                    self.catalogue(),
                    fields@,
                    self.input(),
                    self.position(),
                    (count - i) as nat,
                    entries_of(entries@),
                ),
            decreases count - i,
        {
            let at = self.offset;
            let tag: i64 = self.parse_vint::<i64>()?;
            let field = match find_struct_field(fields, tag) {
                Some(field) => field,
                None => {
                    return Err(Error::SyntaxError(ErrorCode::BadTag(tag), at));
                },
            };
            let value = self.instance(fields[field].1)?;
            dict_insert(&mut entries, fields[field].0.to_owned(), value);
            i = i + 1;
        }
        Ok(entries)
    }
}

impl Value {
    /// Decodes the value that comes next from `de`: what `visit` gives.
    pub fn deserialize(de: &mut Deserializer) -> (out: Result<Value, Error>)
        requires
            old(de).wf(),
        ensures
            Deserializer::visited(old(de), final(de), old(de).top(), out),
    {
        de.visit()
    }
}

/// Whether no descriptor of `typeinfos` refers to a type outside it.
pub fn catalogue_is_valid(typeinfos: &[TypeInfo]) -> (valid: bool)
    ensures
        valid == valid_catalogue(typeinfos@),
{
    let count = typeinfos.len();
    let mut i: usize = 0;
    while i < count
        invariant
            i <= count,
            count == typeinfos@.len(),
            forall|k: int| 0 <= k < i ==> refers_within(#[trigger] typeinfos@[k], count as nat),
        decreases count - i,
    {
        let fine = match &typeinfos[i] {
            TypeInfo::Array { typeid, .. } => (*typeid as u64) < count as u64,
            TypeInfo::Optional { typeid } => (*typeid as u64) < count as u64,
            TypeInfo::Choice { types, .. } => {
                let mut j: usize = 0;
                let mut within = true;
                while j < types.len()
                    invariant
                        j <= types@.len(),
                        within == (forall|k: int|
                            0 <= k < j ==> (#[trigger] types@[k]).2 < count),
                    decreases types@.len() - j,
                {
                    if types[j].2 as u64 >= count as u64 {
                        within = false;
                    }
                    j = j + 1;
                }
                within
            },
            TypeInfo::Struct(st) => {
                let mut j: usize = 0;
                let mut within = true;
                while j < st.fields.len()
                    invariant
                        j <= st.fields@.len(),
                        within == (forall|k: int|
                            0 <= k < j ==> (#[trigger] st.fields@[k]).1 < count),
                    decreases st.fields@.len() - j,
                {
                    if st.fields[j].1 as u64 >= count as u64 {
                        within = false;
                    }
                    j = j + 1;
                }
                within
            },
            _ => true,
        };
        if !fine {
            return false;
        }
        i = i + 1;
    }
    true
}

/// Decodes the value of the type `root_typeid` that is the whole of
/// `input`.
pub fn decode(typeinfos: &[TypeInfo], root_typeid: usize, input: &[u8]) -> (out: Result<
    Value,
    Error,
>)
    requires
        valid_catalogue(typeinfos@),
        root_typeid < typeinfos@.len(),
        root_typeid <= u32::MAX,
    ensures
        match decode_spec(typeinfos@, root_typeid as TypeId, input@) {
            Ok(tree) => out matches Ok(value) && value@ == tree,
            Err(fault) => out matches Err(e) && e == fault_error(fault),
        },
{
    let mut de = Deserializer::new(input, typeinfos, root_typeid);
    let value = de.root()?;
    if de.offset() < input.len() {
        return Err(Error::SyntaxError(ErrorCode::TrailingBytes, de.offset()));
    }
    Ok(value)
}

} // verus!
