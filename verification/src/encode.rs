//! The wire form of a value tree, and the law that decoding it gives the
//! tree back.

use vstd::prelude::*;

use vstd::utf8::{encode_utf8, encode_utf8_decode_utf8, encode_utf8_valid_utf8, valid_utf8};

use crate::format::{arm_index, field_index, ChoiceArm, StructField, TypeId, TypeInfo};
use crate::value::{dict_put, key_index, Tree};
use crate::versioned::Fault;
use crate::wire::{
    blob_body, decode_spec, int_body, number_at, parse_fields, parse_items, parse_value, Number,
    Parsed,
};
use crate::vlq::{vlq_at, vlq_tail, Vlq};

verus! {

/// The continuation bytes that carry `rest`: groups of seven bits, least
/// significant first, every byte but the last with the high bit.
pub open spec fn vlq_tail_bytes(rest: nat) -> Seq<u8>
    decreases rest,
{
    if rest < 128 {
        seq![rest as u8]
    } else {
        seq![(rest % 128 + 128) as u8] + vlq_tail_bytes(rest / 128)
    }
}

/// The shortest bytes of the quantity with the sign bit `negative` and the
/// magnitude `magnitude`.
pub open spec fn vlq_bytes(negative: bool, magnitude: nat) -> Seq<u8> {
    let sign: nat = if negative {
        1
    } else {
        0
    };
    let low = magnitude % 64;
    if magnitude < 64 {
        seq![(low * 2 + sign) as u8]
    } else {
        seq![(low * 2 + sign + 128) as u8] + vlq_tail_bytes(magnitude / 64)
    }
}

/// The bytes of the quantity that stands for `n`; zero has no sign bit.
pub open spec fn int_bytes(n: int) -> Seq<u8> {
    if n < 0 {
        vlq_bytes(true, (-n) as nat)
    } else {
        vlq_bytes(false, n as nat)
    }
}

/// Whether `input` holds `bytes` from `pos` on.
pub open spec fn holds_at(input: Seq<u8>, pos: nat, bytes: Seq<u8>) -> bool {
    &&& pos + bytes.len() <= input.len()
    &&& input.subrange(pos as int, (pos + bytes.len()) as int) == bytes
}

/// Where `input` holds `a` and then `b` from `pos` on, it holds `a` at
/// `pos` and `b` behind it.
pub proof fn lemma_framed_split(input: Seq<u8>, pos: nat, a: Seq<u8>, b: Seq<u8>)
    requires
        holds_at(input, pos, a + b),
    ensures
        holds_at(input, pos, a),
        holds_at(input, pos + a.len(), b),
{
    let whole = input.subrange(pos as int, (pos + (a + b).len()) as int);
    assert forall|i: int| 0 <= i < a.len() implies input[pos + i] == a[i] by {
        assert(whole[i] == (a + b)[i]);
    }
    assert forall|i: int| 0 <= i < b.len() implies input[pos + a.len() + i] == b[i] by {
        assert(whole[a.len() + i] == (a + b)[a.len() + i]);
    }
    assert(input.subrange(pos as int, (pos + a.len()) as int) =~= a);
    assert(input.subrange((pos + a.len()) as int, (pos + a.len() + b.len()) as int) =~= b);
}

/// The first byte of what `input` holds at `pos`.
pub proof fn lemma_framed_first(input: Seq<u8>, pos: nat, bytes: Seq<u8>)
    requires
        holds_at(input, pos, bytes),
        bytes.len() > 0,
    ensures
        pos < input.len(),
        input[pos as int] == bytes[0],
{
    assert(input.subrange(pos as int, (pos + bytes.len()) as int)[0] == bytes[0]);
}

/// What the masks and shifts of the quantity mean as arithmetic.
proof fn lemma_byte_parts(byte: u8)
    ensures
        byte & 1 == byte % 2,
        (byte >> 1) & 0x3f == (byte / 2) % 64,
        byte & 0x7f == byte % 128,
        (byte & 0x80 == 0) == (byte < 128),
{
    assert(byte & 1 == byte % 2) by (bit_vector);
    assert((byte >> 1) & 0x3f == (byte / 2) % 64) by (bit_vector);
    assert(byte & 0x7f == byte % 128) by (bit_vector);
    assert((byte & 0x80 == 0) == (byte < 128)) by (bit_vector);
}

/// The continuation bytes of `rest` are read back as `rest`.
proof fn lemma_tail_read_back(input: Seq<u8>, pos: nat, rest: nat)
    requires
        holds_at(input, pos, vlq_tail_bytes(rest)),
    ensures
        vlq_tail(input, pos) == Some((rest, vlq_tail_bytes(rest).len())),
    decreases rest,
{
    let bytes = vlq_tail_bytes(rest);
    lemma_framed_first(input, pos, bytes);
    lemma_byte_parts(input[pos as int]);
    if rest >= 128 {
        let head = seq![(rest % 128 + 128) as u8];
        lemma_framed_split(input, pos, head, vlq_tail_bytes(rest / 128));
        lemma_tail_read_back(input, pos + 1, rest / 128);
    }
}

/// The bytes of a quantity are read back as the quantity.
pub proof fn lemma_vlq_read_back(input: Seq<u8>, pos: nat, negative: bool, magnitude: nat)
    requires
        holds_at(input, pos, vlq_bytes(negative, magnitude)),
    ensures
        vlq_at(input, pos) == Some(
            Vlq { negative, magnitude, len: vlq_bytes(negative, magnitude).len() },
        ),
        vlq_bytes(negative, magnitude).len() >= 1,
{
    let bytes = vlq_bytes(negative, magnitude);
    lemma_framed_first(input, pos, bytes);
    lemma_byte_parts(input[pos as int]);
    if magnitude >= 64 {
        let sign: nat = if negative {
            1
        } else {
            0
        };
        let head = seq![(magnitude % 64 * 2 + sign + 128) as u8];
        lemma_framed_split(input, pos, head, vlq_tail_bytes(magnitude / 64));
        lemma_tail_read_back(input, pos + 1, magnitude / 64);
    }
}

/// Whether the field `j` of `fields` goes by the name `name` and is the
/// field that its own tag finds.
pub open spec fn fits_field(fields: Seq<StructField>, j: int, name: Seq<char>) -> bool {
    &&& 0 <= j < fields.len()
    &&& fields[j].0@ == name
    &&& field_index(fields, fields[j].2 as int) == Some(j)
}

/// Whether the arm `i` of `arms` goes by the name `name` and is the arm
/// that its own selector finds.
pub open spec fn fits_arm(arms: Seq<ChoiceArm>, i: int, name: Seq<char>) -> bool {
    &&& 0 <= i < arms.len()
    &&& arms[i].1@ == name
    &&& arm_index(arms, arms[i].0 as int) == Some(i)
}

/// The wire form of `tree` as a value of the type `typeid`; nothing where
/// the tree is not one that decoding a value of that type can give:
/// - an integer is unsigned from zero on and signed below, and lies no
///   further from the least value of its type than a signed quantity
///   reaches;
/// - a blob is a text, or bytes that are not valid UTF-8;
/// - a bit array is the pair of its count of bits and the bytes that hold
///   so many bits;
/// - a four-character code or a real is as many bytes as its kind takes;
/// - a choice is a dictionary of one entry under the name of an arm;
/// - a struct is a dictionary whose keys are names of fields, each once;
/// - counts and lengths fit 32 bits.
pub open spec fn encode(typeinfos: Seq<TypeInfo>, typeid: TypeId, tree: Tree) -> Option<Seq<u8>>
    decreases tree,
{
    if typeid >= typeinfos.len() {
        None
    } else {
        match (typeinfos[typeid as int], tree) {
            (TypeInfo::Int { bounds }, Tree::U64(n)) => if n <= i64::MAX && n - bounds.min
                <= i64::MAX {
                Some(seq![0x09u8] + int_bytes(n - bounds.min))
            } else {
                None
            },
            (TypeInfo::Int { bounds }, Tree::I64(n)) => if n < 0 && i64::MIN <= n - bounds.min
                <= i64::MAX {
                Some(seq![0x09u8] + int_bytes(n - bounds.min))
            } else {
                None
            },
            (TypeInfo::Blob { .. }, Tree::String(text)) => if encode_utf8(text).len() <= u32::MAX {
                Some(
                    seq![0x02u8] + vlq_bytes(false, encode_utf8(text).len()) + encode_utf8(text),
                )
            } else {
                None
            },
            (TypeInfo::Blob { .. }, Tree::Bytes(bytes)) => if !valid_utf8(bytes) && bytes.len()
                <= u32::MAX {
                Some(seq![0x02u8] + vlq_bytes(false, bytes.len()) + bytes)
            } else {
                None
            },
            (TypeInfo::Array { typeid: element, .. }, Tree::Array(items)) => if items.len()
                <= u32::MAX {
                match encode_items(typeinfos, element, items) {
                    Some(body) => Some(seq![0x00u8] + vlq_bytes(false, items.len()) + body),
                    None => None,
                }
            } else {
                None
            },
            (TypeInfo::BitArray { .. }, Tree::Array(pair)) => if pair.len() == 2 {
                match (pair[0], pair[1]) {
                    (Tree::U64(bits), Tree::Bytes(bytes)) => if bits <= u32::MAX && bytes.len() == (
                    bits + 7) / 8 {
                        Some(seq![0x01u8] + vlq_bytes(false, bits as nat) + bytes)
                    } else {
                        None
                    },
                    _ => None,
                }
            } else {
                None
            },
            (TypeInfo::Bool, Tree::Boolean(b)) => Some(
                seq![
                    0x06u8,
                    if b {
                        1u8
                    } else {
                        0u8
                    },
                ],
            ),
            (TypeInfo::FourCC, Tree::Bytes(bytes)) => if bytes.len() == 4 {
                Some(seq![0x07u8] + bytes)
            } else {
                None
            },
            (TypeInfo::Real32, Tree::Bytes(bytes)) => if bytes.len() == 4 {
                Some(seq![0x07u8] + bytes)
            } else {
                None
            },
            (TypeInfo::Real64, Tree::Bytes(bytes)) => if bytes.len() == 8 {
                Some(seq![0x08u8] + bytes)
            } else {
                None
            },
            (TypeInfo::Optional { .. }, Tree::Null) => Some(seq![0x04u8, 0x00u8]),
            (TypeInfo::Optional { typeid: element }, Tree::Optional(inner)) => match encode(
                typeinfos,
                element,
                *inner,
            ) {
                Some(body) => Some(seq![0x04u8, 0x01u8] + body),
                None => None,
            },
            (TypeInfo::Choice { types, .. }, Tree::Dict(entries)) => if entries.len() == 1
                && exists|i: int| fits_arm(types@, i, entries[0].0) {
                let arm = choose|i: int| fits_arm(types@, i, entries[0].0);
                match encode(typeinfos, types@[arm].2, entries[0].1) {
                    Some(body) => Some(
                        seq![0x03u8] + vlq_bytes(false, types@[arm].0 as nat) + body,
                    ),
                    None => None,
                }
            } else {
                None
            },
            (TypeInfo::Struct(st), Tree::Dict(entries)) => if entries.len() <= u32::MAX {
                match encode_fields(typeinfos, st.fields@, entries, 0) {
                    Some(body) => Some(seq![0x05u8] + vlq_bytes(false, entries.len()) + body),
                    None => None,
                }
            } else {
                None
            },
            _ => None,
        }
    }
}

/// The wire forms of `items` as values of the type `typeid`, one after the
/// other.
pub open spec fn encode_items(typeinfos: Seq<TypeInfo>, typeid: TypeId, items: Seq<Tree>)
    -> Option<Seq<u8>>
    decreases items,
{
    if items.len() == 0 {
        Some(Seq::empty())
    } else {
        match (
            encode(typeinfos, typeid, items[0]),
            encode_items(typeinfos, typeid, items.skip(1)),
        ) {
            (Some(first), Some(rest)) => Some(first + rest),
            _ => None,
        }
    }
}

/// The wire forms of the entries of `entries` from the `from`-th on as
/// fields of a struct with the fields `fields`: each the tag of a field of
/// its name and the wire form of its value. There is none where a key is
/// no name of a field or comes a second time.
pub open spec fn encode_fields(
    typeinfos: Seq<TypeInfo>,
    fields: Seq<StructField>,
    entries: Seq<(Seq<char>, Tree)>,
    from: nat,
) -> Option<Seq<u8>>
    decreases entries, entries.len() - from,
{
    if from >= entries.len() {
        Some(Seq::empty())
    } else if key_index(entries.take(from as int), entries[from as int].0) is Some || !exists|
        j: int,
    | fits_field(fields, j, entries[from as int].0) {
        None
    } else {
        let field = choose|j: int| fits_field(fields, j, entries[from as int].0);
        match (
            encode(typeinfos, fields[field].1, entries[from as int].1),
            encode_fields(typeinfos, fields, entries, from + 1),
        ) {
            (Some(value), Some(rest)) => Some(int_bytes(fields[field].2 as int) + value + rest),
            _ => None,
        }
    }
}

/// A count written as a quantity is read back as the count.
proof fn lemma_count_read_back(input: Seq<u8>, pos: nat, count: nat)
    requires
        count <= u32::MAX,
        holds_at(input, pos, vlq_bytes(false, count)),
    ensures
        number_at::<u32>(input, pos) == Ok::<Number<u32>, Fault>(
            Number { value: count as u32, len: vlq_bytes(false, count).len() },
        ),
{
    lemma_vlq_read_back(input, pos, false, count);
}

/// A signed number written as a quantity is read back as the number.
proof fn lemma_int_read_back(input: Seq<u8>, pos: nat, n: int)
    requires
        i64::MIN <= n <= i64::MAX,
        holds_at(input, pos, int_bytes(n)),
    ensures
        number_at::<i64>(input, pos) == Ok::<Number<i64>, Fault>(
            Number { value: n as i64, len: int_bytes(n).len() },
        ),
{
    if n < 0 {
        lemma_vlq_read_back(input, pos, true, (-n) as nat);
    } else {
        lemma_vlq_read_back(input, pos, false, n as nat);
    }
}

/// What reading a value gives where the wire form is read back whole.
pub open spec fn read_back(tree: Tree, bytes: Seq<u8>) -> Result<Parsed, Fault> {
    Ok(Parsed { tree, len: bytes.len() })
}

proof fn lemma_int_case(typeinfos: Seq<TypeInfo>, typeid: TypeId, tree: Tree, input: Seq<u8>, pos: nat)
    requires
        typeid < typeinfos.len(),
        typeinfos[typeid as int] is Int,
        encode(typeinfos, typeid, tree) is Some,
        holds_at(input, pos, encode(typeinfos, typeid, tree)->Some_0),
    ensures
        parse_value(typeinfos, typeid, input, pos) == read_back(
            tree,
            encode(typeinfos, typeid, tree)->Some_0,
        ),
{
    let bytes = encode(typeinfos, typeid, tree)->Some_0;
    let min = typeinfos[typeid as int]->Int_bounds.min;
    let n: int = match tree {
        Tree::U64(n) => n as int,
        Tree::I64(n) => n as int,
        _ => 0,
    };
    assert(tree is U64 || tree is I64);
    let body = int_bytes(n - min);
    assert(bytes == seq![0x09u8] + body);
    lemma_framed_first(input, pos, bytes);
    lemma_framed_split(input, pos, seq![0x09u8], body);
    lemma_int_read_back(input, pos + 1, n - min);
    assert(int_body(input, pos, min) == read_back(tree, bytes));
}

proof fn lemma_blob_case(typeinfos: Seq<TypeInfo>, typeid: TypeId, tree: Tree, input: Seq<u8>, pos: nat)
    requires
        typeid < typeinfos.len(),
        typeinfos[typeid as int] is Blob,
        encode(typeinfos, typeid, tree) is Some,
        holds_at(input, pos, encode(typeinfos, typeid, tree)->Some_0),
    ensures
        parse_value(typeinfos, typeid, input, pos) == read_back(
            tree,
            encode(typeinfos, typeid, tree)->Some_0,
        ),
{
    let bytes = encode(typeinfos, typeid, tree)->Some_0;
    assert(tree is String || tree is Bytes);
    let data: Seq<u8> = match tree {
        Tree::String(text) => encode_utf8(text),
        Tree::Bytes(data) => data,
        _ => Seq::empty(),
    };
    let count = vlq_bytes(false, data.len());
    assert(bytes == seq![0x02u8] + count + data);
    assert(seq![0x02u8] + count + data =~= seq![0x02u8] + (count + data));
    lemma_framed_first(input, pos, bytes);
    lemma_framed_split(input, pos, seq![0x02u8], count + data);
    lemma_framed_split(input, pos + 1, count, data);
    lemma_count_read_back(input, pos + 1, data.len());
    match tree {
        Tree::String(text) => {
            encode_utf8_decode_utf8(text);
            encode_utf8_valid_utf8(text);
        },
        _ => {},
    }
    assert(input.subrange((pos + 1 + count.len()) as int, (pos + 1 + count.len() + data.len()) as int)
        == data);
    assert(blob_body(input, pos) == read_back(tree, bytes));
}

proof fn lemma_bit_array_case(
    typeinfos: Seq<TypeInfo>,
    typeid: TypeId,
    tree: Tree,
    input: Seq<u8>,
    pos: nat,
)
    requires
        typeid < typeinfos.len(),
        typeinfos[typeid as int] is BitArray,
        encode(typeinfos, typeid, tree) is Some,
        holds_at(input, pos, encode(typeinfos, typeid, tree)->Some_0),
    ensures
        parse_value(typeinfos, typeid, input, pos) == read_back(
            tree,
            encode(typeinfos, typeid, tree)->Some_0,
        ),
{
    let bytes = encode(typeinfos, typeid, tree)->Some_0;
    assert(tree is Array);
    let pair = tree->Array_0;
    assert(pair.len() == 2 && pair[0] is U64 && pair[1] is Bytes);
    let bits = pair[0]->U64_0;
    let data = pair[1]->Bytes_0;
    let count = vlq_bytes(false, bits as nat);
    assert(bytes == seq![0x01u8] + count + data);
    assert(seq![0x01u8] + count + data =~= seq![0x01u8] + (count + data));
    lemma_framed_first(input, pos, bytes);
    lemma_framed_split(input, pos, seq![0x01u8], count + data);
    lemma_framed_split(input, pos + 1, count, data);
    lemma_count_read_back(input, pos + 1, bits as nat);
    assert(pair =~= seq![Tree::U64(bits), Tree::Bytes(data)]);
    assert(input.subrange((pos + 1 + count.len()) as int, (pos + 1 + count.len() + data.len()) as int)
        == data);
}

proof fn lemma_plain_case(typeinfos: Seq<TypeInfo>, typeid: TypeId, tree: Tree, input: Seq<u8>, pos: nat)
    requires
        typeid < typeinfos.len(),
        typeinfos[typeid as int] is Bool || typeinfos[typeid as int] is FourCC
            || typeinfos[typeid as int] is Real32 || typeinfos[typeid as int] is Real64 || (
        typeinfos[typeid as int] is Optional && tree is Null),
        encode(typeinfos, typeid, tree) is Some,
        holds_at(input, pos, encode(typeinfos, typeid, tree)->Some_0),
    ensures
        parse_value(typeinfos, typeid, input, pos) == read_back(
            tree,
            encode(typeinfos, typeid, tree)->Some_0,
        ),
{
    let bytes = encode(typeinfos, typeid, tree)->Some_0;
    lemma_framed_first(input, pos, bytes);
    assert(bytes =~= seq![bytes[0]] + bytes.skip(1));
    lemma_framed_split(input, pos, seq![bytes[0]], bytes.skip(1));
    match typeinfos[typeid as int] {
        TypeInfo::Bool => {
            assert(tree is Boolean);
            lemma_framed_first(input, pos + 1, bytes.skip(1));
        },
        TypeInfo::Optional { .. } => {
            lemma_framed_first(input, pos + 1, bytes.skip(1));
        },
        TypeInfo::FourCC => {
            assert(tree is Bytes);
            assert(bytes.skip(1) =~= tree->Bytes_0);
            assert(input.subrange((pos + 1) as int, (pos + 1 + 4) as int) == tree->Bytes_0);
        },
        TypeInfo::Real32 => {
            assert(tree is Bytes);
            assert(bytes.skip(1) =~= tree->Bytes_0);
            assert(input.subrange((pos + 1) as int, (pos + 1 + 4) as int) == tree->Bytes_0);
        },
        TypeInfo::Real64 => {
            assert(tree is Bytes);
            assert(bytes.skip(1) =~= tree->Bytes_0);
            assert(input.subrange((pos + 1) as int, (pos + 1 + 8) as int) == tree->Bytes_0);
        },
        _ => {},
    }
}

proof fn lemma_optional_case(
    typeinfos: Seq<TypeInfo>,
    typeid: TypeId,
    tree: Tree,
    input: Seq<u8>,
    pos: nat,
)
    requires
        typeid < typeinfos.len(),
        typeinfos[typeid as int] is Optional,
        tree is Optional,
        encode(typeinfos, typeid, tree) is Some,
        holds_at(input, pos, encode(typeinfos, typeid, tree)->Some_0),
        parse_value(typeinfos, typeinfos[typeid as int]->Optional_typeid, input, pos + 2)
            == read_back(
            *tree->Optional_0,
            encode(typeinfos, typeinfos[typeid as int]->Optional_typeid, *tree->Optional_0)->Some_0,
        ),
    ensures
        parse_value(typeinfos, typeid, input, pos) == read_back(
            tree,
            encode(typeinfos, typeid, tree)->Some_0,
        ),
{
    let bytes = encode(typeinfos, typeid, tree)->Some_0;
    let element = typeinfos[typeid as int]->Optional_typeid;
    let body = encode(typeinfos, element, *tree->Optional_0)->Some_0;
    assert(bytes == seq![0x04u8, 0x01u8] + body);
    assert(bytes =~= seq![0x04u8] + (seq![0x01u8] + body));
    lemma_framed_first(input, pos, bytes);
    lemma_framed_split(input, pos, seq![0x04u8], seq![0x01u8] + body);
    lemma_framed_first(input, pos + 1, seq![0x01u8] + body);
}

proof fn lemma_array_case(typeinfos: Seq<TypeInfo>, typeid: TypeId, tree: Tree, input: Seq<u8>, pos: nat)
    requires
        typeid < typeinfos.len(),
        typeinfos[typeid as int] is Array,
        tree is Array,
        encode(typeinfos, typeid, tree) is Some,
        holds_at(input, pos, encode(typeinfos, typeid, tree)->Some_0),
        parse_items(
            typeinfos,
            typeinfos[typeid as int]->Array_typeid,
            input,
            pos + 1 + vlq_bytes(false, tree->Array_0.len()).len(),
            tree->Array_0.len(),
            Seq::empty(),
        ) == Ok::<(Seq<Tree>, nat), Fault>(
            (tree->Array_0, pos + encode(typeinfos, typeid, tree)->Some_0.len()),
        ),
    ensures
        parse_value(typeinfos, typeid, input, pos) == read_back(
            tree,
            encode(typeinfos, typeid, tree)->Some_0,
        ),
{
    let bytes = encode(typeinfos, typeid, tree)->Some_0;
    let element = typeinfos[typeid as int]->Array_typeid;
    let items = tree->Array_0;
    let body = encode_items(typeinfos, element, items)->Some_0;
    let count = vlq_bytes(false, items.len());
    assert(bytes == seq![0x00u8] + count + body);
    assert(seq![0x00u8] + count + body =~= seq![0x00u8] + (count + body));
    lemma_framed_first(input, pos, bytes);
    lemma_framed_split(input, pos, seq![0x00u8], count + body);
    lemma_framed_split(input, pos + 1, count, body);
    lemma_count_read_back(input, pos + 1, items.len());
}

proof fn lemma_struct_case(typeinfos: Seq<TypeInfo>, typeid: TypeId, tree: Tree, input: Seq<u8>, pos: nat)
    requires
        typeid < typeinfos.len(),
        typeinfos[typeid as int] is Struct,
        tree is Dict,
        encode(typeinfos, typeid, tree) is Some,
        holds_at(input, pos, encode(typeinfos, typeid, tree)->Some_0),
        parse_fields(
            typeinfos,
            typeinfos[typeid as int]->Struct_0.fields@,
            input,
            pos + 1 + vlq_bytes(false, tree->Dict_0.len()).len(),
            tree->Dict_0.len(),
            Seq::empty(),
        ) == Ok::<(Seq<(Seq<char>, Tree)>, nat), Fault>(
            (tree->Dict_0, pos + encode(typeinfos, typeid, tree)->Some_0.len()),
        ),
    ensures
        parse_value(typeinfos, typeid, input, pos) == read_back(
            tree,
            encode(typeinfos, typeid, tree)->Some_0,
        ),
{
    let bytes = encode(typeinfos, typeid, tree)->Some_0;
    let fields = typeinfos[typeid as int]->Struct_0.fields@;
    let entries = tree->Dict_0;
    let body = encode_fields(typeinfos, fields, entries, 0)->Some_0;
    let count = vlq_bytes(false, entries.len());
    assert(bytes == seq![0x05u8] + count + body);
    assert(seq![0x05u8] + count + body =~= seq![0x05u8] + (count + body));
    lemma_framed_first(input, pos, bytes);
    lemma_framed_split(input, pos, seq![0x05u8], count + body);
    lemma_framed_split(input, pos + 1, count, body);
    lemma_count_read_back(input, pos + 1, entries.len());
}

proof fn lemma_choice_case(
    typeinfos: Seq<TypeInfo>,
    typeid: TypeId,
    tree: Tree,
    input: Seq<u8>,
    pos: nat,
    arm: int,
)
    requires
        typeid < typeinfos.len(),
        typeinfos[typeid as int] is Choice,
        tree is Dict,
        encode(typeinfos, typeid, tree) is Some,
        holds_at(input, pos, encode(typeinfos, typeid, tree)->Some_0),
        arm == choose|i: int| fits_arm(typeinfos[typeid as int]->Choice_types@, i, tree->Dict_0[0].0),
        parse_value(
            typeinfos,
            typeinfos[typeid as int]->Choice_types@[arm].2,
            input,
            pos + 1 + vlq_bytes(false, typeinfos[typeid as int]->Choice_types@[arm].0 as nat).len(),
        ) == read_back(
            tree->Dict_0[0].1,
            encode(
                typeinfos,
                typeinfos[typeid as int]->Choice_types@[arm].2,
                tree->Dict_0[0].1,
            )->Some_0,
        ),
    ensures
        parse_value(typeinfos, typeid, input, pos) == read_back(
            tree,
            encode(typeinfos, typeid, tree)->Some_0,
        ),
{
    let bytes = encode(typeinfos, typeid, tree)->Some_0;
    let types = typeinfos[typeid as int]->Choice_types@;
    let entries = tree->Dict_0;
    assert(fits_arm(types, arm, entries[0].0));
    let body = encode(typeinfos, types[arm].2, entries[0].1)->Some_0;
    let selector = vlq_bytes(false, types[arm].0 as nat);
    assert(bytes == seq![0x03u8] + selector + body);
    assert(seq![0x03u8] + selector + body =~= seq![0x03u8] + (selector + body));
    lemma_framed_first(input, pos, bytes);
    lemma_framed_split(input, pos, seq![0x03u8], selector + body);
    lemma_framed_split(input, pos + 1, selector, body);
    lemma_count_read_back(input, pos + 1, types[arm].0 as nat);
    assert(entries =~= seq![(types[arm].1@, entries[0].1)]);
}

/// Where `input` holds the wire form of `tree` at `pos`, the value read
/// there is `tree`, and it takes just the bytes of the wire form.
pub proof fn lemma_parse_encoded(
    typeinfos: Seq<TypeInfo>,
    typeid: TypeId,
    tree: Tree,
    input: Seq<u8>,
    pos: nat,
)
    requires
        encode(typeinfos, typeid, tree) is Some,
        holds_at(input, pos, encode(typeinfos, typeid, tree)->Some_0),
    ensures
        parse_value(typeinfos, typeid, input, pos) == read_back(
            tree,
            encode(typeinfos, typeid, tree)->Some_0,
        ),
    decreases tree,
{
    let bytes = encode(typeinfos, typeid, tree)->Some_0;
    match typeinfos[typeid as int] {
        TypeInfo::Int { .. } => {
            lemma_int_case(typeinfos, typeid, tree, input, pos);
        },
        TypeInfo::Blob { .. } => {
            lemma_blob_case(typeinfos, typeid, tree, input, pos);
        },
        TypeInfo::BitArray { .. } => {
            lemma_bit_array_case(typeinfos, typeid, tree, input, pos);
        },
        TypeInfo::Array { typeid: element, .. } => {
            assert(tree is Array);
            let items = tree->Array_0;
            let body = encode_items(typeinfos, element, items)->Some_0;
            let count = vlq_bytes(false, items.len());
            assert(bytes == seq![0x00u8] + count + body);
            assert(seq![0x00u8] + count + body =~= seq![0x00u8] + (count + body));
            lemma_framed_split(input, pos, seq![0x00u8], count + body);
            lemma_framed_split(input, pos + 1, count, body);
            lemma_parse_encoded_items(
                typeinfos,
                element,
                items,
                input,
                pos + 1 + count.len(),
                Seq::empty(),
            );
            assert(Seq::<Tree>::empty() + items =~= items);
            lemma_array_case(typeinfos, typeid, tree, input, pos);
        },
        TypeInfo::Optional { typeid: element } => {
            match tree {
                Tree::Optional(inner) => {
                    let body = encode(typeinfos, element, *inner)->Some_0;
                    assert(bytes == seq![0x04u8, 0x01u8] + body);
                    lemma_framed_split(input, pos, seq![0x04u8, 0x01u8], body);
                    lemma_parse_encoded(typeinfos, element, *inner, input, pos + 2);
                    lemma_optional_case(typeinfos, typeid, tree, input, pos);
                },
                _ => {
                    lemma_plain_case(typeinfos, typeid, tree, input, pos);
                },
            }
        },
        TypeInfo::Choice { types, .. } => {
            assert(tree is Dict);
            let entries = tree->Dict_0;
            let arm = choose|i: int| fits_arm(types@, i, entries[0].0);
            let body = encode(typeinfos, types@[arm].2, entries[0].1)->Some_0;
            let selector = vlq_bytes(false, types@[arm].0 as nat);
            assert(bytes == seq![0x03u8] + selector + body);
            assert(seq![0x03u8] + selector + body =~= seq![0x03u8] + (selector + body));
            lemma_framed_split(input, pos, seq![0x03u8], selector + body);
            lemma_framed_split(input, pos + 1, selector, body);
            lemma_parse_encoded(
                typeinfos,
                types@[arm].2,
                entries[0].1,
                input,
                pos + 1 + selector.len(),
            );
            lemma_choice_case(typeinfos, typeid, tree, input, pos, arm);
        },
        TypeInfo::Struct(st) => {
            assert(tree is Dict);
            let entries = tree->Dict_0;
            let body = encode_fields(typeinfos, st.fields@, entries, 0)->Some_0;
            let count = vlq_bytes(false, entries.len());
            assert(bytes == seq![0x05u8] + count + body);
            assert(seq![0x05u8] + count + body =~= seq![0x05u8] + (count + body));
            lemma_framed_split(input, pos, seq![0x05u8], count + body);
            lemma_framed_split(input, pos + 1, count, body);
            lemma_parse_encoded_fields(
                typeinfos,
                st.fields@,
                entries,
                0,
                input,
                pos + 1 + count.len(),
            );
            assert(entries.take(0) =~= Seq::<(Seq<char>, Tree)>::empty());
            lemma_struct_case(typeinfos, typeid, tree, input, pos);
        },
        TypeInfo::Null => {},
        _ => {
            lemma_plain_case(typeinfos, typeid, tree, input, pos);
        },
    }
}

/// Where `input` holds the wire forms of `items` at `pos`, the values read
/// there are `items`, behind those read before.
pub proof fn lemma_parse_encoded_items(
    typeinfos: Seq<TypeInfo>,
    typeid: TypeId,
    items: Seq<Tree>,
    input: Seq<u8>,
    pos: nat,
    so_far: Seq<Tree>,
)
    requires
        encode_items(typeinfos, typeid, items) is Some,
        holds_at(input, pos, encode_items(typeinfos, typeid, items)->Some_0),
    ensures
        parse_items(typeinfos, typeid, input, pos, items.len(), so_far) == Ok::<
            (Seq<Tree>, nat),
            Fault,
        >((so_far + items, pos + encode_items(typeinfos, typeid, items)->Some_0.len())),
    decreases items,
{
    if items.len() == 0 {
        assert(so_far + items =~= so_far);
    } else {
        let first = encode(typeinfos, typeid, items[0])->Some_0;
        let rest = encode_items(typeinfos, typeid, items.skip(1))->Some_0;
        lemma_framed_split(input, pos, first, rest);
        lemma_parse_encoded(typeinfos, typeid, items[0], input, pos);
        lemma_parse_encoded_items(
            typeinfos,
            typeid,
            items.skip(1),
            input,
            pos + first.len(),
            so_far.push(items[0]),
        );
        assert(so_far.push(items[0]) + items.skip(1) =~= so_far + items);
    }
}

/// Where `input` holds the wire forms of the entries from the `from`-th on
/// at `pos`, the fields read there make `entries` of the entries before
/// them.
pub proof fn lemma_parse_encoded_fields(
    typeinfos: Seq<TypeInfo>,
    fields: Seq<StructField>,
    entries: Seq<(Seq<char>, Tree)>,
    from: nat,
    input: Seq<u8>,
    pos: nat,
)
    requires
        from <= entries.len(),
        encode_fields(typeinfos, fields, entries, from) is Some,
        holds_at(input, pos, encode_fields(typeinfos, fields, entries, from)->Some_0),
    ensures
        parse_fields(
            typeinfos,
            fields,
            input,
            pos,
            (entries.len() - from) as nat,
            entries.take(from as int),
        ) == Ok::<(Seq<(Seq<char>, Tree)>, nat), Fault>(
            (entries, pos + encode_fields(typeinfos, fields, entries, from)->Some_0.len()),
        ),
    decreases entries, entries.len() - from,
{
    if from >= entries.len() {
        assert(entries.take(from as int) =~= entries);
    } else {
        let key = entries[from as int].0;
        let field = choose|j: int| fits_field(fields, j, key);
        let tag = int_bytes(fields[field].2 as int);
        let value = encode(typeinfos, fields[field].1, entries[from as int].1)->Some_0;
        let rest = encode_fields(typeinfos, fields, entries, from + 1)->Some_0;
        assert(tag + value + rest =~= tag + (value + rest));
        lemma_framed_split(input, pos, tag, value + rest);
        lemma_framed_split(input, pos + tag.len(), value, rest);
        lemma_int_read_back(input, pos, fields[field].2 as int);
        lemma_parse_encoded(
            typeinfos,
            fields[field].1,
            entries[from as int].1,
            input,
            pos + tag.len(),
        );
        lemma_parse_encoded_fields(
            typeinfos,
            fields,
            entries,
            from + 1,
            input,
            pos + tag.len() + value.len(),
        );
        assert(dict_put(entries.take(from as int), key, entries[from as int].1)
            =~= entries.take((from + 1) as int));
    }
}

/// Decoding the wire form of a tree gives the tree back.
pub proof fn lemma_decode_encode(typeinfos: Seq<TypeInfo>, root: TypeId, tree: Tree)
    requires
        encode(typeinfos, root, tree) is Some,
    ensures
        decode_spec(typeinfos, root, encode(typeinfos, root, tree)->Some_0) == Ok::<
            Tree,
            Fault,
        >(tree),
{
    let bytes = encode(typeinfos, root, tree)->Some_0;
    assert(bytes.subrange(0, bytes.len() as int) =~= bytes);
    lemma_parse_encoded(typeinfos, root, tree, bytes, 0);
}

} // verus!
