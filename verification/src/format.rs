//! The type catalogue that drives the versioned decoder: a sequence of type
//! descriptors, each known by its index.

use vstd::prelude::*;

verus! {

/// Index of a descriptor in its catalogue.
pub type TypeId = u32;

/// Name, type and on-wire tag of one field of a struct.
pub type StructField = (&'static str, TypeId, i32);

/// On-wire selector, name and type of one arm of a choice.
pub type ChoiceArm = (u32, &'static str, TypeId);

/// Least value and width in bits of an integer or of a length.
#[derive(Clone, Copy, Debug)]
pub struct IntBounds {
    pub min: i64,
    pub bitlen: u8,
}

/// The fields of a struct, in the order of their declaration.
#[derive(Clone, Debug)]
pub struct Struct {
    pub fields: Vec<StructField>,
}

/// One type descriptor.
#[derive(Clone, Debug)]
pub enum TypeInfo {
    Array { bounds: IntBounds, typeid: TypeId },
    BitArray { len: IntBounds },
    Blob { len: IntBounds },
    Bool,
    Choice { bounds: IntBounds, types: Vec<ChoiceArm> },
    FourCC,
    Int { bounds: IntBounds },
    Null,
    Optional { typeid: TypeId },
    Real32,
    Real64,
    Struct(Struct),
}

/// The kind byte that starts every value of the type `info` on the wire;
/// a value of the null type has no form on the wire.
pub open spec fn kind_byte(info: TypeInfo) -> Option<u8> {
    match info {
        TypeInfo::Array { .. } => Some(0x00u8),
        TypeInfo::BitArray { .. } => Some(0x01u8),
        TypeInfo::Blob { .. } => Some(0x02u8),
        TypeInfo::Choice { .. } => Some(0x03u8),
        TypeInfo::Optional { .. } => Some(0x04u8),
        TypeInfo::Struct(_) => Some(0x05u8),
        TypeInfo::Bool => Some(0x06u8),
        TypeInfo::FourCC => Some(0x07u8),
        TypeInfo::Real32 => Some(0x07u8),
        TypeInfo::Real64 => Some(0x08u8),
        TypeInfo::Int { .. } => Some(0x09u8),
        TypeInfo::Null => None,
    }
}

/// Whether every type that `info` refers to is one of the first `count`
/// descriptors.
pub open spec fn refers_within(info: TypeInfo, count: nat) -> bool {
    match info {
        TypeInfo::Array { typeid, .. } => typeid < count,
        TypeInfo::Optional { typeid } => typeid < count,
        TypeInfo::Choice { types, .. } => forall|j: int|
            0 <= j < types@.len() ==> (#[trigger] types@[j]).2 < count,
        TypeInfo::Struct(st) => forall|j: int|
            0 <= j < st.fields@.len() ==> (#[trigger] st.fields@[j]).1 < count,
        _ => true,
    }
}

/// A catalogue is valid where no descriptor refers to a type outside it.
pub open spec fn valid_catalogue(typeinfos: Seq<TypeInfo>) -> bool {
    forall|i: int|
        0 <= i < typeinfos.len() ==> refers_within(#[trigger] typeinfos[i], typeinfos.len())
}

/// The first field of `fields` with the tag `tag`, by its index.
pub open spec fn field_index(fields: Seq<StructField>, tag: int) -> Option<int>
    decreases fields.len(),
{
    if fields.len() == 0 {
        None
    } else {
        match field_index(fields.drop_last(), tag) {
            Some(i) => Some(i),
            None => if fields.last().2 == tag {
                Some(fields.len() - 1)
            } else {
                None
            },
        }
    }
}

/// The first arm of `arms` with the selector `selector`, by its index.
pub open spec fn arm_index(arms: Seq<ChoiceArm>, selector: int) -> Option<int>
    decreases arms.len(),
{
    if arms.len() == 0 {
        None
    } else {
        match arm_index(arms.drop_last(), selector) {
            Some(i) => Some(i),
            None => if arms.last().0 == selector {
                Some(arms.len() - 1)
            } else {
                None
            },
        }
    }
}

proof fn lemma_field_index_range(fields: Seq<StructField>, tag: int)
    ensures
        match field_index(fields, tag) {
            Some(i) => 0 <= i < fields.len() && fields[i].2 == tag,
            None => forall|j: int| 0 <= j < fields.len() ==> (#[trigger] fields[j]).2 != tag,
        },
    decreases fields.len(),
{
    if fields.len() > 0 {
        lemma_field_index_range(fields.drop_last(), tag);
        match field_index(fields.drop_last(), tag) {
            Some(i) => {
                assert(fields.drop_last()[i] == fields[i]);
            },
            None => {
                assert forall|j: int| 0 <= j < fields.len() - 1 implies (#[trigger] fields[j]).2
                    != tag by {
                    assert(fields.drop_last()[j] == fields[j]);
                }
            },
        }
    }
}

proof fn lemma_field_index_first(fields: Seq<StructField>, tag: int, i: int)
    requires
        0 <= i < fields.len(),
        fields[i].2 == tag,
        forall|j: int| 0 <= j < i ==> (#[trigger] fields[j]).2 != tag,
    ensures
        field_index(fields, tag) == Some(i),
    decreases fields.len(),
{
    lemma_field_index_range(fields.drop_last(), tag);
    if i < fields.len() - 1 {
        assert(fields.drop_last()[i] == fields[i]);
        assert forall|j: int| 0 <= j < i implies (#[trigger] fields.drop_last()[j]).2 != tag by {
            assert(fields.drop_last()[j] == fields[j]);
        }
        lemma_field_index_first(fields.drop_last(), tag, i);
    } else {
        match field_index(fields.drop_last(), tag) {
            Some(k) => {
                assert(fields.drop_last()[k] == fields[k]);
            },
            None => {},
        }
    }
}

proof fn lemma_arm_index_range(arms: Seq<ChoiceArm>, selector: int)
    ensures
        match arm_index(arms, selector) {
            Some(i) => 0 <= i < arms.len() && arms[i].0 == selector,
            None => forall|j: int| 0 <= j < arms.len() ==> (#[trigger] arms[j]).0 != selector,
        },
    decreases arms.len(),
{
    if arms.len() > 0 {
        lemma_arm_index_range(arms.drop_last(), selector);
        match arm_index(arms.drop_last(), selector) {
            Some(i) => {
                assert(arms.drop_last()[i] == arms[i]);
            },
            None => {
                assert forall|j: int| 0 <= j < arms.len() - 1 implies (#[trigger] arms[j]).0
                    != selector by {
                    assert(arms.drop_last()[j] == arms[j]);
                }
            },
        }
    }
}

proof fn lemma_arm_index_first(arms: Seq<ChoiceArm>, selector: int, i: int)
    requires
        0 <= i < arms.len(),
        arms[i].0 == selector,
        forall|j: int| 0 <= j < i ==> (#[trigger] arms[j]).0 != selector,
    ensures
        arm_index(arms, selector) == Some(i),
    decreases arms.len(),
{
    lemma_arm_index_range(arms.drop_last(), selector);
    if i < arms.len() - 1 {
        assert(arms.drop_last()[i] == arms[i]);
        assert forall|j: int| 0 <= j < i implies (#[trigger] arms.drop_last()[j]).0 != selector by {
            assert(arms.drop_last()[j] == arms[j]);
        }
        lemma_arm_index_first(arms.drop_last(), selector, i);
    } else {
        match arm_index(arms.drop_last(), selector) {
            Some(k) => {
                assert(arms.drop_last()[k] == arms[k]);
            },
            None => {},
        }
    }
}

/// Finds the first field of `fields` with the tag `tag`.
pub fn find_struct_field(fields: &Vec<StructField>, tag: i64) -> (out: Option<usize>)
    ensures
        match out {
            Some(i) => i < fields@.len() && field_index(fields@, tag as int) == Some(i as int),
            None => field_index(fields@, tag as int) is None,
        },
{
    let mut i: usize = 0;
    while i < fields.len()
        invariant
            i <= fields@.len(),
            forall|j: int| 0 <= j < i ==> (#[trigger] fields@[j]).2 != tag,
        decreases fields@.len() - i,
    {
        if fields[i].2 as i64 == tag {
            proof {
                lemma_field_index_first(fields@, tag as int, i as int);
            }
            return Some(i);
        }
        i = i + 1;
    }
    proof {
        lemma_field_index_range(fields@, tag as int);
    }
    None
}

/// Finds the first arm of `arms` with the selector `selector`.
pub fn find_choice_arm(arms: &Vec<ChoiceArm>, selector: u32) -> (out: Option<usize>)
    ensures
        match out {
            Some(i) => i < arms@.len() && arm_index(arms@, selector as int) == Some(i as int),
            None => arm_index(arms@, selector as int) is None,
        },
{
    let mut i: usize = 0;
    while i < arms.len()
        invariant
            i <= arms@.len(),
            forall|j: int| 0 <= j < i ==> (#[trigger] arms@[j]).0 != selector,
        decreases arms@.len() - i,
    {
        if arms[i].0 == selector {
            proof {
                lemma_arm_index_first(arms@, selector as int, i as int);
            }
            return Some(i);
        }
        i = i + 1;
    }
    proof {
        lemma_arm_index_range(arms@, selector as int);
    }
    None
}

} // verus!
