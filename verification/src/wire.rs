//! The versioned format on the wire: what the bytes of an input hold, as a
//! function from the bytes to a tree or a fault.

use vstd::prelude::*;
use vstd::utf8::{decode_utf8, valid_utf8};

use crate::format::{arm_index, field_index, kind_byte, StructField, TypeId, TypeInfo};
use crate::value::{dict_put, lemma_dict_put_well_formed, well_formed, Tree};
use crate::versioned::{eof, ErrorCode, Fault, PrimitiveInt};
use crate::vlq::{lemma_vlq_extent, vlq_at};

verus! {

/// A number read from the wire and the count of bytes it took.
pub struct Number<T> {
    pub value: T,
    pub len: nat,
}

/// The number of type `T` whose quantity starts at `pos`. The input ending
/// early is reported at its end, a quantity that does not fit `T` where it
/// starts.
pub open spec fn number_at<T: PrimitiveInt>(input: Seq<u8>, pos: nat) -> Result<Number<T>, Fault> {
    match vlq_at(input, pos) {
        None => Err(eof(input)),
        Some(vlq) => match T::of_vlq(vlq) {
            Ok(value) => Ok(Number { value, len: vlq.len }),
            Err(code) => Err(Fault { code, offset: pos }),
        },
    }
}

/// A value read from the wire and the count of bytes it took, kind byte
/// included.
pub struct Parsed {
    pub tree: Tree,
    pub len: nat,
}

/// Number of bytes of `input` from `pos` on.
pub open spec fn space(input: Seq<u8>, pos: nat) -> nat {
    if pos < input.len() {
        (input.len() - pos) as nat
    } else {
        0
    }
}

/// The tree of a blob: its text where the bytes are valid UTF-8, the bytes
/// themselves where they are not.
pub open spec fn blob_tree(bytes: Seq<u8>) -> Tree {
    if valid_utf8(bytes) {
        Tree::String(decode_utf8(bytes))
    } else {
        Tree::Bytes(bytes)
    }
}

/// The tree of an integer whose type starts at `min` and whose quantity
/// stands for `offset`: their sum, which must fit a signed 64-bit number.
/// A sum below zero is a signed tree, any other an unsigned one.
pub open spec fn int_tree(min: i64, offset: i64) -> Result<Tree, ErrorCode> {
    let sum = min + offset;
    if sum < i64::MIN || sum > i64::MAX {
        Err(ErrorCode::IntOutOfRange)
    } else if sum < 0 {
        Ok(Tree::I64(sum as i64))
    } else {
        Ok(Tree::U64(sum as u64))
    }
}

/// The tree of a bit array of `bits` bits held in `bytes`: the pair of the
/// count and the bytes.
pub open spec fn bit_array_tree(bits: u32, bytes: Seq<u8>) -> Tree {
    Tree::Array(seq![Tree::U64(bits as u64), Tree::Bytes(bytes)])
}

/// The `count` bytes from `pos` on as a tree of bytes, after a header of
/// `header` bytes that belongs to the same value.
pub open spec fn raw_bytes(input: Seq<u8>, pos: nat, header: nat, count: nat) -> Result<
    Parsed,
    Fault,
> {
    if pos + count > input.len() {
        Err(eof(input))
    } else {
        Ok(
            Parsed {
                tree: Tree::Bytes(input.subrange(pos as int, (pos + count) as int)),
                len: header + count,
            },
        )
    }
}

/// The failure of a value that starts with the byte `got` at `pos` where
/// a value of another kind, of the type `typeid`, is due.
pub open spec fn kind_fault(typeid: TypeId, got: u8, pos: nat) -> Fault {
    if got > 9 {
        Fault { code: ErrorCode::BadKindByte(got), offset: pos }
    } else {
        Fault { code: ErrorCode::TypeMismatch { expected: typeid, got_kind: got }, offset: pos }
    }
}

/// `rest`, which is read behind the kind byte at `pos`, where that byte is
/// `expected`; the failure of the kind byte where it is not.
pub open spec fn after_kind(
    input: Seq<u8>,
    pos: nat,
    typeid: TypeId,
    expected: u8,
    rest: Result<Parsed, Fault>,
) -> Result<Parsed, Fault> {
    if pos >= input.len() {
        Err(eof(input))
    } else if input[pos as int] != expected {
        Err(kind_fault(typeid, input[pos as int], pos))
    } else {
        rest
    }
}

/// The integer behind the kind byte at `pos`: a signed quantity, which
/// counts from `min`.
pub open spec fn int_body(input: Seq<u8>, pos: nat, min: i64) -> Result<Parsed, Fault> {
    match number_at::<i64>(input, pos + 1) {
        Err(fault) => Err(fault),
        Ok(offset) => match int_tree(min, offset.value) {
            Err(code) => Err(Fault { code, offset: pos + 1 }),
            Ok(tree) => Ok(Parsed { tree, len: 1 + offset.len }),
        },
    }
}

/// The blob behind the kind byte at `pos`: the count, then so many bytes.
pub open spec fn blob_body(input: Seq<u8>, pos: nat) -> Result<Parsed, Fault> {
    match number_at::<u32>(input, pos + 1) {
        Err(fault) => Err(fault),
        Ok(count) => {
            let start = pos + 1 + count.len;
            if start + count.value > input.len() {
                Err(eof(input))
            } else {
                Ok(
                    Parsed {
                        tree: blob_tree(input.subrange(start as int, start + count.value)),
                        len: 1 + count.len + count.value as nat,
                    },
                )
            }
        },
    }
}

/// The value of type `typeid` that starts at `pos`.
///
/// The kind byte must be that of the type due: a byte that names no kind
/// is a `BadKindByte`, another kind a `TypeMismatch`. A type outside the
/// catalogue and the null type fit no kind. What follows the kind byte:
/// - array: the count, then so many values of the element type;
/// - bit array: the count of bits, then the bytes that hold them;
/// - blob: the count, then so many bytes;
/// - choice: the selector, then a value of the arm's type, which comes out
///   as a dictionary of one entry under the arm's name;
/// - optional: a byte, and where it is not zero a value of the element
///   type; zero gives the null tree;
/// - struct: the count of fields, then so many pairs of tag and value;
/// - bool: a byte, true where it is not zero;
/// - four-character code and 32-bit real: four bytes, which come out as
///   they are; 64-bit real: eight bytes;
/// - integer: a signed quantity, which counts from the least value of the
///   type.
pub open spec fn parse_value(typeinfos: Seq<TypeInfo>, typeid: TypeId, input: Seq<u8>, pos: nat)
    -> Result<Parsed, Fault>
    decreases space(input, pos), 0nat,
{
    if pos >= input.len() {
        Err(eof(input))
    } else {
        let kind = input[pos as int];
        if typeid >= typeinfos.len() || kind_byte(typeinfos[typeid as int]) != Some(kind) {
            Err(kind_fault(typeid, kind, pos))
        } else {
            match typeinfos[typeid as int] {
                TypeInfo::Array { typeid: element, .. } => match number_at::<u32>(input, pos + 1) {
                    Err(fault) => Err(fault),
                    Ok(count) => match parse_items(
                        typeinfos,
                        element,
                        input,
                        pos + 1 + count.len,
                        count.value as nat,
                        Seq::empty(),
                    ) {
                        Err(fault) => Err(fault),
                        Ok((items, end)) => Ok(
                            Parsed { tree: Tree::Array(items), len: (end - pos) as nat },
                        ),
                    },
                },
                TypeInfo::BitArray { .. } => match number_at::<u32>(input, pos + 1) {
                    Err(fault) => Err(fault),
                    Ok(bits) => {
                        let count = ((bits.value + 7) / 8) as nat;
                        let start = pos + 1 + bits.len;
                        if start + count > input.len() {
                            Err(eof(input))
                        } else {
                            Ok(
                                Parsed {
                                    tree: bit_array_tree(
                                        bits.value,
                                        input.subrange(start as int, (start + count) as int),
                                    ),
                                    len: 1 + bits.len + count,
                                },
                            )
                        }
                    },
                },
                TypeInfo::Blob { .. } => blob_body(input, pos),
                TypeInfo::Choice { types, .. } => match number_at::<u32>(input, pos + 1) {
                    Err(fault) => Err(fault),
                    Ok(selector) => match arm_index(types@, selector.value as int) {
                        None => Err(
                            Fault {
                                code: ErrorCode::UnknownChoice(selector.value),
                                offset: pos + 1,
                            },
                        ),
                        Some(arm) => match parse_value(
                            typeinfos,
                            types@[arm].2,
                            input,
                            pos + 1 + selector.len,
                        ) {
                            Err(fault) => Err(fault),
                            Ok(inner) => Ok(
                                Parsed {
                                    tree: Tree::Dict(seq![(types@[arm].1@, inner.tree)]),
                                    len: 1 + selector.len + inner.len,
                                },
                            ),
                        },
                    },
                },
                TypeInfo::Optional { typeid: element } => if pos + 1 >= input.len() {
                    Err(eof(input))
                } else if input[(pos + 1) as int] == 0 {
                    Ok(Parsed { tree: Tree::Null, len: 2 })
                } else {
                    match parse_value(typeinfos, element, input, pos + 2) {
                        Err(fault) => Err(fault),
                        Ok(inner) => Ok(
                            Parsed {
                                tree: Tree::Optional(Box::new(inner.tree)),
                                len: 2 + inner.len,
                            },
                        ),
                    }
                },
                TypeInfo::Struct(st) => match number_at::<u32>(input, pos + 1) {
                    Err(fault) => Err(fault),
                    Ok(count) => match parse_fields(
                        typeinfos,
                        st.fields@,
                        input,
                        pos + 1 + count.len,
                        count.value as nat,
                        Seq::empty(),
                    ) {
                        Err(fault) => Err(fault),
                        Ok((entries, end)) => Ok(
                            Parsed { tree: Tree::Dict(entries), len: (end - pos) as nat },
                        ),
                    },
                },
                TypeInfo::Bool => if pos + 1 >= input.len() {
                    Err(eof(input))
                } else {
                    Ok(Parsed { tree: Tree::Boolean(input[(pos + 1) as int] != 0), len: 2 })
                },
                TypeInfo::FourCC => raw_bytes(input, pos + 1, 1, 4),
                TypeInfo::Real32 => raw_bytes(input, pos + 1, 1, 4),
                TypeInfo::Real64 => raw_bytes(input, pos + 1, 1, 8),
                TypeInfo::Int { bounds } => int_body(input, pos, bounds.min),
                TypeInfo::Null => Err(kind_fault(typeid, kind, pos)),
            }
        }
    }
}

/// The trees `so_far`, followed by those of the `count` values of type
/// `typeid` that start at `pos`, and the place where the last of them ends.
pub open spec fn parse_items(
    typeinfos: Seq<TypeInfo>,
    typeid: TypeId,
    input: Seq<u8>,
    pos: nat,
    count: nat,
    so_far: Seq<Tree>,
) -> Result<(Seq<Tree>, nat), Fault>
    decreases space(input, pos), count,
{
    if count == 0 {
        Ok((so_far, pos))
    } else {
        match parse_value(typeinfos, typeid, input, pos) {
            Err(fault) => Err(fault),
            Ok(item) => parse_items(
                typeinfos,
                typeid,
                input,
                pos + item.len,
                (count - 1) as nat,
                so_far.push(item.tree),
            ),
        }
    }
}

/// The entries `so_far`, with those of the `count` fields that start at
/// `pos` put in, and the place where the last field ends. A field is a
/// signed tag, which must be the tag of a field in `fields` (`BadTag`), and
/// a value of that field's type; it is put under the field's name, in the
/// place of an earlier field of that name if there was one.
pub open spec fn parse_fields(
    typeinfos: Seq<TypeInfo>,
    fields: Seq<StructField>,
    input: Seq<u8>,
    pos: nat,
    count: nat,
    so_far: Seq<(Seq<char>, Tree)>,
) -> Result<(Seq<(Seq<char>, Tree)>, nat), Fault>
    decreases space(input, pos), count,
{
    if count == 0 {
        Ok((so_far, pos))
    } else {
        match number_at::<i64>(input, pos) {
            Err(fault) => Err(fault),
            Ok(tag) => match field_index(fields, tag.value as int) {
                None => Err(Fault { code: ErrorCode::BadTag(tag.value), offset: pos }),
                Some(field) => match parse_value(typeinfos, fields[field].1, input, pos + tag.len) {
                    Err(fault) => Err(fault),
                    Ok(value) => parse_fields(
                        typeinfos,
                        fields,
                        input,
                        pos + tag.len + value.len,
                        (count - 1) as nat,
                        dict_put(so_far, fields[field].0@, value.tree),
                    ),
                },
            },
        }
    }
}

/// The struct with the fields `fields` behind the kind byte at `pos`: the
/// count of fields, then so many pairs of tag and value.
pub open spec fn struct_body(
    typeinfos: Seq<TypeInfo>,
    fields: Seq<StructField>,
    input: Seq<u8>,
    pos: nat,
) -> Result<Parsed, Fault> {
    match number_at::<u32>(input, pos + 1) {
        Err(fault) => Err(fault),
        Ok(count) => match parse_fields(
            typeinfos,
            fields,
            input,
            pos + 1 + count.len,
            count.value as nat,
            Seq::empty(),
        ) {
            Err(fault) => Err(fault),
            Ok((entries, end)) => Ok(Parsed { tree: Tree::Dict(entries), len: (end - pos) as nat }),
        },
    }
}

/// A value that is read lies within the input and takes at least its
/// kind byte.
pub proof fn lemma_parse_value_extent(
    typeinfos: Seq<TypeInfo>,
    typeid: TypeId,
    input: Seq<u8>,
    pos: nat,
)
    ensures
        match parse_value(typeinfos, typeid, input, pos) {
            Ok(parsed) => 1 <= parsed.len && pos + parsed.len <= input.len(),
            Err(_) => true,
        },
    decreases space(input, pos), 0nat,
{
    if pos < input.len() && typeid < typeinfos.len() && kind_byte(typeinfos[typeid as int])
        == Some(input[pos as int]) {
        lemma_vlq_extent(input, pos + 1);
        match typeinfos[typeid as int] {
            TypeInfo::Array { typeid: element, .. } => {
                match number_at::<u32>(input, pos + 1) {
                    Ok(count) => {
                        lemma_parse_items_extent(
                            typeinfos,
                            element,
                            input,
                            pos + 1 + count.len,
                            count.value as nat,
                            Seq::empty(),
                        );
                    },
                    Err(_) => {},
                }
            },
            TypeInfo::Choice { types, .. } => {
                match number_at::<u32>(input, pos + 1) {
                    Ok(selector) => {
                        match arm_index(types@, selector.value as int) {
                            Some(arm) => {
                                lemma_parse_value_extent(
                                    typeinfos,
                                    types@[arm].2,
                                    input,
                                    pos + 1 + selector.len,
                                );
                            },
                            None => {},
                        }
                    },
                    Err(_) => {},
                }
            },
            TypeInfo::Optional { typeid: element } => {
                if pos + 1 < input.len() && input[(pos + 1) as int] != 0 {
                    lemma_parse_value_extent(typeinfos, element, input, pos + 2);
                }
            },
            TypeInfo::Struct(st) => {
                match number_at::<u32>(input, pos + 1) {
                    Ok(count) => {
                        lemma_parse_fields_extent(
                            typeinfos,
                            st.fields@,
                            input,
                            pos + 1 + count.len,
                            count.value as nat,
                            Seq::empty(),
                        );
                    },
                    Err(_) => {},
                }
            },
            _ => {},
        }
    }
}

/// Values that are read one after the other end within the input, not
/// before the place where they start.
pub proof fn lemma_parse_items_extent(
    typeinfos: Seq<TypeInfo>,
    typeid: TypeId,
    input: Seq<u8>,
    pos: nat,
    count: nat,
    so_far: Seq<Tree>,
)
    requires
        pos <= input.len(),
    ensures
        match parse_items(typeinfos, typeid, input, pos, count, so_far) {
            Ok((items, end)) => pos <= end <= input.len() && items.len() == so_far.len() + count,
            Err(_) => true,
        },
    decreases space(input, pos), count,
{
    if count > 0 {
        lemma_parse_value_extent(typeinfos, typeid, input, pos);
        match parse_value(typeinfos, typeid, input, pos) {
            Ok(item) => {
                lemma_parse_items_extent(
                    typeinfos,
                    typeid,
                    input,
                    pos + item.len,
                    (count - 1) as nat,
                    so_far.push(item.tree),
                );
            },
            Err(_) => {},
        }
    }
}

/// Fields that are read one after the other end within the input, not
/// before the place where they start.
pub proof fn lemma_parse_fields_extent(
    typeinfos: Seq<TypeInfo>,
    fields: Seq<StructField>,
    input: Seq<u8>,
    pos: nat,
    count: nat,
    so_far: Seq<(Seq<char>, Tree)>,
)
    requires
        pos <= input.len(),
    ensures
        match parse_fields(typeinfos, fields, input, pos, count, so_far) {
            Ok((_, end)) => pos <= end <= input.len(),
            Err(_) => true,
        },
    decreases space(input, pos), count,
{
    if count > 0 {
        lemma_vlq_extent(input, pos);
        match number_at::<i64>(input, pos) {
            Ok(tag) => {
                match field_index(fields, tag.value as int) {
                    Some(field) => {
                        lemma_parse_value_extent(typeinfos, fields[field].1, input, pos + tag.len);
                        match parse_value(typeinfos, fields[field].1, input, pos + tag.len) {
                            Ok(value) => {
                                lemma_parse_fields_extent(
                                    typeinfos,
                                    fields,
                                    input,
                                    pos + tag.len + value.len,
                                    (count - 1) as nat,
                                    dict_put(so_far, fields[field].0@, value.tree),
                                );
                            },
                            Err(_) => {},
                        }
                    },
                    None => {},
                }
            },
            Err(_) => {},
        }
    }
}

/// Every dictionary in a value that is read holds each key once.
pub proof fn lemma_parse_value_well_formed(
    typeinfos: Seq<TypeInfo>,
    typeid: TypeId,
    input: Seq<u8>,
    pos: nat,
)
    ensures
        match parse_value(typeinfos, typeid, input, pos) {
            Ok(parsed) => well_formed(parsed.tree),
            Err(_) => true,
        },
    decreases space(input, pos), 0nat,
{
    if pos < input.len() && typeid < typeinfos.len() && kind_byte(typeinfos[typeid as int])
        == Some(input[pos as int]) {
        match typeinfos[typeid as int] {
            TypeInfo::Array { typeid: element, .. } => {
                match number_at::<u32>(input, pos + 1) {
                    Ok(count) => {
                        lemma_parse_items_well_formed(
                            typeinfos,
                            element,
                            input,
                            pos + 1 + count.len,
                            count.value as nat,
                            Seq::empty(),
                        );
                    },
                    Err(_) => {},
                }
            },
            TypeInfo::BitArray { .. } => {
                match parse_value(typeinfos, typeid, input, pos) {
                    Ok(parsed) => {
                        assert(parsed.tree is Array);
                        assert(parsed.tree->Array_0.len() == 2);
                        assert(well_formed(parsed.tree->Array_0[0]));
                        assert(well_formed(parsed.tree->Array_0[1]));
                    },
                    Err(_) => {},
                }
            },
            TypeInfo::Choice { types, .. } => {
                match number_at::<u32>(input, pos + 1) {
                    Ok(selector) => {
                        match arm_index(types@, selector.value as int) {
                            Some(arm) => {
                                lemma_parse_value_well_formed(
                                    typeinfos,
                                    types@[arm].2,
                                    input,
                                    pos + 1 + selector.len,
                                );
                            },
                            None => {},
                        }
                    },
                    Err(_) => {},
                }
            },
            TypeInfo::Optional { typeid: element } => {
                if pos + 1 < input.len() && input[(pos + 1) as int] != 0 {
                    lemma_parse_value_well_formed(typeinfos, element, input, pos + 2);
                }
            },
            TypeInfo::Struct(st) => {
                match number_at::<u32>(input, pos + 1) {
                    Ok(count) => {
                        lemma_parse_fields_well_formed(
                            typeinfos,
                            st.fields@,
                            input,
                            pos + 1 + count.len,
                            count.value as nat,
                            Seq::empty(),
                        );
                    },
                    Err(_) => {},
                }
            },
            _ => {},
        }
    }
}

/// Values that are read one after the other are well-formed, where those
/// read before them are.
pub proof fn lemma_parse_items_well_formed(
    typeinfos: Seq<TypeInfo>,
    typeid: TypeId,
    input: Seq<u8>,
    pos: nat,
    count: nat,
    so_far: Seq<Tree>,
)
    requires
        forall|i: int| 0 <= i < so_far.len() ==> well_formed(#[trigger] so_far[i]),
    ensures
        match parse_items(typeinfos, typeid, input, pos, count, so_far) {
            Ok((items, _)) => forall|i: int|
                0 <= i < items.len() ==> well_formed(#[trigger] items[i]),
            Err(_) => true,
        },
    decreases space(input, pos), count,
{
    if count > 0 {
        lemma_parse_value_well_formed(typeinfos, typeid, input, pos);
        match parse_value(typeinfos, typeid, input, pos) {
            Ok(item) => {
                let more = so_far.push(item.tree);
                assert forall|i: int| 0 <= i < more.len() implies well_formed(
                    #[trigger] more[i],
                ) by {
                    if i < so_far.len() {
                        assert(more[i] == so_far[i]);
                    } else {
                        assert(more[i] == item.tree);
                    }
                }
                lemma_parse_items_well_formed(
                    typeinfos,
                    typeid,
                    input,
                    pos + item.len,
                    (count - 1) as nat,
                    more,
                );
            },
            Err(_) => {},
        }
    }
}

/// Fields that are read one after the other make a well-formed
/// dictionary, where those read before them do.
pub proof fn lemma_parse_fields_well_formed(
    typeinfos: Seq<TypeInfo>,
    fields: Seq<StructField>,
    input: Seq<u8>,
    pos: nat,
    count: nat,
    so_far: Seq<(Seq<char>, Tree)>,
)
    requires
        well_formed(Tree::Dict(so_far)),
    ensures
        match parse_fields(typeinfos, fields, input, pos, count, so_far) {
            Ok((entries, _)) => well_formed(Tree::Dict(entries)),
            Err(_) => true,
        },
    decreases space(input, pos), count,
{
    if count > 0 {
        match number_at::<i64>(input, pos) {
            Ok(tag) => {
                match field_index(fields, tag.value as int) {
                    Some(field) => {
                        lemma_parse_value_well_formed(
                            typeinfos,
                            fields[field].1,
                            input,
                            pos + tag.len,
                        );
                        match parse_value(typeinfos, fields[field].1, input, pos + tag.len) {
                            Ok(value) => {
                                lemma_dict_put_well_formed(so_far, fields[field].0@, value.tree);
                                lemma_parse_fields_well_formed(
                                    typeinfos,
                                    fields,
                                    input,
                                    pos + tag.len + value.len,
                                    (count - 1) as nat,
                                    dict_put(so_far, fields[field].0@, value.tree),
                                );
                            },
                            Err(_) => {},
                        }
                    },
                    None => {},
                }
            },
            Err(_) => {},
        }
    }
}

/// The value of type `root` that is the whole of `input`. Bytes after the
/// value are reported where they start.
pub open spec fn decode_spec(typeinfos: Seq<TypeInfo>, root: TypeId, input: Seq<u8>) -> Result<
    Tree,
    Fault,
> {
    match parse_value(typeinfos, root, input, 0) {
        Err(fault) => Err(fault),
        Ok(parsed) => if parsed.len < input.len() {
            Err(Fault { code: ErrorCode::TrailingBytes, offset: parsed.len })
        } else {
            Ok(parsed.tree)
        },
    }
}

} // verus!
