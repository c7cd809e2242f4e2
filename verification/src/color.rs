//! A colour as a typed record, filled straight from the wire.

use vstd::prelude::*;

use crate::format::{field_index, find_struct_field, StructField, TypeId, TypeInfo};
use crate::value::{str_eq, Tree, Value};
use crate::versioned::{eof, fault_error, Deserializer, Error, ErrorCode, Fault};
use crate::wire::{kind_fault, number_at, parse_value};

verus! {

/// A colour: alpha, red, green and blue.
#[derive(Clone, Copy, Debug, PartialEq, Eq)]
pub struct Color {
    pub a: u8,
    pub r: u8,
    pub g: u8,
    pub b: u8,
}

/// One of the four fields of a colour.
#[derive(Clone, Copy, Debug, PartialEq, Eq)]
pub enum ColorField {
    A,
    R,
    G,
    B,
}

/// The field of a colour that goes by the name `name` in the catalogue.
pub open spec fn color_field_of(name: Seq<char>) -> Option<ColorField> {
    if name == "m_a"@ {
        Some(ColorField::A)
    } else if name == "m_r"@ {
        Some(ColorField::R)
    } else if name == "m_g"@ {
        Some(ColorField::G)
    } else if name == "m_b"@ {
        Some(ColorField::B)
    } else {
        None
    }
}

impl ColorField {
    /// The field that goes by the name `name`; `UnknownFieldError` for any
    /// other name.
    pub fn deserialize(name: &str) -> (out: Result<ColorField, Error>)
        ensures
            match color_field_of(name@) {
                Some(field) => out == Ok::<ColorField, Error>(field),
                None => out == Err::<ColorField, Error>(Error::UnknownFieldError),
            },
    {
        if str_eq(name, "m_a") {
            Ok(ColorField::A)
        } else if str_eq(name, "m_r") {
            Ok(ColorField::R)
        } else if str_eq(name, "m_g") {
            Ok(ColorField::G)
        } else if str_eq(name, "m_b") {
            Ok(ColorField::B)
        } else {
            Err(Error::UnknownFieldError)
        }
    }
}

/// The fields of a colour as far as they have been read.
#[derive(Clone, Copy, Debug)]
pub struct ColorVisitor {
    pub a: Option<u8>,
    pub r: Option<u8>,
    pub g: Option<u8>,
    pub b: Option<u8>,
}

/// The channel that a decoded value gives: an unsigned number up to 255.
pub open spec fn channel_of(tree: Tree) -> Option<u8> {
    match tree {
        Tree::U64(n) => if n <= 255 {
            Some(n as u8)
        } else {
            None
        },
        _ => None,
    }
}

impl ColorVisitor {
    /// No field read yet.
    pub open spec fn empty() -> ColorVisitor {
        ColorVisitor { a: None, r: None, g: None, b: None }
    }

    /// These fields with `value` in the field `field`.
    pub open spec fn with(self, field: ColorField, value: u8) -> ColorVisitor {
        match field {
            ColorField::A => ColorVisitor { a: Some(value), ..self },
            ColorField::R => ColorVisitor { r: Some(value), ..self },
            ColorField::G => ColorVisitor { g: Some(value), ..self },
            ColorField::B => ColorVisitor { b: Some(value), ..self },
        }
    }

    /// The colour that these fields make; the first field that is missing,
    /// in the order a, r, g, b, is reported by its name in the catalogue.
    pub open spec fn finished(self) -> Result<Color, Error> {
        if self.a is None {
            Err(Error::MissingFieldError("m_a"))
        } else if self.r is None {
            Err(Error::MissingFieldError("m_r"))
        } else if self.g is None {
            Err(Error::MissingFieldError("m_g"))
        } else if self.b is None {
            Err(Error::MissingFieldError("m_b"))
        } else {
            Ok(Color { a: self.a->Some_0, r: self.r->Some_0, g: self.g->Some_0, b: self.b->Some_0 })
        }
    }

    /// These fields after `count` more fields of a struct with the fields
    /// `fields` have been read from `pos` on, and the place behind them.
    /// Each is a tag, which must be the tag of a field in `fields`
    /// (`BadTag`) whose name is that of a field of a colour
    /// (`UnknownFieldError`), and a value of the field's type, which must
    /// be a channel (`IntOutOfRange`, reported where the value starts). A
    /// field read twice keeps what was read last.
    pub open spec fn after_fields(
        self,
        typeinfos: Seq<TypeInfo>,
        fields: Seq<StructField>,
        input: Seq<u8>,
        pos: nat,
        count: nat,
    ) -> Result<(ColorVisitor, nat), Error>
        decreases count,
    {
        if count == 0 {
            Ok((self, pos))
        } else {
            match number_at::<i64>(input, pos) {
                Err(fault) => Err(fault_error(fault)),
                Ok(tag) => match field_index(fields, tag.value as int) {
                    None => Err(
                        fault_error(Fault { code: ErrorCode::BadTag(tag.value), offset: pos }),
                    ),
                    Some(i) => match color_field_of(fields[i].0@) {
                        None => Err(Error::UnknownFieldError),
                        Some(field) => match parse_value(
                            typeinfos,
                            fields[i].1,
                            input,
                            pos + tag.len,
                        ) {
                            Err(fault) => Err(fault_error(fault)),
                            Ok(value) => match channel_of(value.tree) {
                                None => Err(
                                    fault_error(
                                        Fault {
                                            code: ErrorCode::IntOutOfRange,
                                            offset: pos + tag.len,
                                        },
                                    ),
                                ),
                                Some(channel) => self.with(field, channel).after_fields(
                                    typeinfos,
                                    fields,
                                    input,
                                    pos + tag.len + value.len,
                                    (count - 1) as nat,
                                ),
                            },
                        },
                    },
                },
            }
        }
    }

    /// Reads `length` fields of a struct with the fields `fields` into
    /// this visitor and gives the colour that they make.
    pub fn visit_map(&mut self, de: &mut Deserializer, fields: &Vec<StructField>, length: u32) -> (out:
        Result<Color, Error>)
        requires
            old(de).wf(),
            forall|j: int|
                0 <= j < fields@.len() ==> (#[trigger] fields@[j]).1 < old(de).catalogue().len(),
        ensures
            Deserializer::moved_on(old(de), final(de)),
            match old(self).after_fields(
                old(de).catalogue(),
                fields@,
                old(de).input(),
                old(de).position(),
                length as nat,
            ) {
                Ok((filled, end)) => *final(self) == filled && final(de).position() == end && out
                    == filled.finished(),
                Err(e) => out == Err::<Color, Error>(e),
            },
    {
        let mut i: u32 = 0;
        while i < length
            invariant
                i <= length,
                forall|j: int|
                    0 <= j < fields@.len() ==> (#[trigger] fields@[j]).1 < de.catalogue().len(),
                Deserializer::moved_on(old(de), de),
                old(self).after_fields(
                    old(de).catalogue(),
                    fields@,
                    old(de).input(),
                    old(de).position(),
                    length as nat,
                ) == self.after_fields(
                    de.catalogue(),
                    fields@,
                    de.input(),
                    de.position(),
                    (length - i) as nat,
                ),
            decreases length - i,
        {
            let at = de.offset();
            let tag: i64 = de.parse_vint::<i64>()?;
            let index = match find_struct_field(fields, tag) {
                Some(index) => index,
                None => {
                    return Err(Error::SyntaxError(ErrorCode::BadTag(tag), at));
                },
            };
            let field = ColorField::deserialize(fields[index].0)?;
            let start = de.offset();
            let value = de.instance(fields[index].1)?;
            let channel: u8 = match value {
                Value::U64(n) => if n <= 255 {
                    n as u8
                } else {
                    return Err(Error::SyntaxError(ErrorCode::IntOutOfRange, start));
                },
                _ => {
                    return Err(Error::SyntaxError(ErrorCode::IntOutOfRange, start));
                },
            };
            match field {
                ColorField::A => {
                    self.a = Some(channel);
                },
                ColorField::R => {
                    self.r = Some(channel);
                },
                ColorField::G => {
                    self.g = Some(channel);
                },
                ColorField::B => {
                    self.b = Some(channel);
                },
            }
            i = i + 1;
        }
        let a = match self.a {
            Some(a) => a,
            None => {
                return Err(Error::MissingFieldError("m_a"));
            },
        };
        let r = match self.r {
            Some(r) => r,
            None => {
                return Err(Error::MissingFieldError("m_r"));
            },
        };
        let g = match self.g {
            Some(g) => g,
            None => {
                return Err(Error::MissingFieldError("m_g"));
            },
        };
        let b = match self.b {
            Some(b) => b,
            None => {
                return Err(Error::MissingFieldError("m_b"));
            },
        };
        Ok(Color { a, r, g, b })
    }
}

/// The colour that starts at `pos`, where a value of the type `typeid` is
/// due: that type must be a struct and the kind byte that of a struct; the
/// count of fields and the fields follow.
pub open spec fn color_at(typeinfos: Seq<TypeInfo>, typeid: TypeId, input: Seq<u8>, pos: nat)
    -> Result<Color, Error> {
    if pos >= input.len() {
        Err(fault_error(eof(input)))
    } else if typeid >= typeinfos.len() {
        Err(fault_error(kind_fault(typeid, input[pos as int], pos)))
    } else {
        match typeinfos[typeid as int] {
            TypeInfo::Struct(st) => if input[pos as int] != 0x05 {
                Err(fault_error(kind_fault(typeid, input[pos as int], pos)))
            } else {
                match number_at::<u32>(input, pos + 1) {
                    Err(fault) => Err(fault_error(fault)),
                    Ok(count) => match ColorVisitor::empty().after_fields(
                        typeinfos,
                        st.fields@,
                        input,
                        pos + 1 + count.len,
                        count.value as nat,
                    ) {
                        Err(e) => Err(e),
                        Ok((filled, _)) => filled.finished(),
                    },
                }
            },
            _ => Err(fault_error(kind_fault(typeid, input[pos as int], pos))),
        }
    }
}

impl Color {
    /// Decodes the value that comes next, whose type is the top of the
    /// stack, as a colour. The stack is the same afterwards.
    pub fn deserialize(de: &mut Deserializer) -> (out: Result<Color, Error>)
        requires
            old(de).wf(),
        ensures
            Deserializer::moved_on(old(de), final(de)),
            out == color_at(old(de).catalogue(), old(de).top(), old(de).input(), old(de).position()),
    {
        let at = de.offset();
        let typeid = de.top_typeinfo();
        let kind = match de.peek() {
            Some(kind) => kind,
            None => {
                proof {
                    de.lemma_wf();
                }
                return Err(Error::SyntaxError(ErrorCode::UnexpectedEof, at));
            },
        };
        proof {
            de.lemma_wf();
        }
        match de.typeinfo(typeid) {
            TypeInfo::Struct(st) => {
                de.expect_skip(0x05)?;
                let length: u32 = de.parse_vint::<u32>()?;
                let mut visitor = ColorVisitor { a: None, r: None, g: None, b: None };
                visitor.visit_map(de, &st.fields, length)
            },
            _ => if kind > 9 {
                Err(Error::SyntaxError(ErrorCode::BadKindByte(kind), at))
            } else {
                Err(
                    Error::SyntaxError(
                        ErrorCode::TypeMismatch { expected: typeid, got_kind: kind },
                        at,
                    ),
                )
            },
        }
    }
}

} // verus!
