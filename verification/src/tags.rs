//! The one-byte tags that the binary form gives to well-known primitive and
//! property names.

use vstd::prelude::*;
use crate::text::str_eq;

verus! {

/// The primitive name that a tag stands for.
pub open spec fn primitive_name(tag: u8) -> Option<Seq<char>> {
    if tag == 1 {
        Some("sphere"@)
    } else if tag == 2 {
        Some("box"@)
    } else if tag == 3 {
        Some("cylinder"@)
    } else if tag == 4 {
        Some("capsule"@)
    } else if tag == 5 {
        Some("cone"@)
    } else if tag == 6 {
        Some("torus"@)
    } else if tag == 7 {
        Some("plane"@)
    } else if tag == 8 {
        Some("ellipsoid"@)
    } else if tag == 9 {
        Some("cube"@)
    } else {
        None
    }
}

/// The tag of a primitive name, where it has one.
pub open spec fn primitive_tag(name: Seq<char>) -> Option<u8> {
    if name == "sphere"@ {
        Some(1u8)
    } else if name == "box"@ {
        Some(2u8)
    } else if name == "cylinder"@ {
        Some(3u8)
    } else if name == "capsule"@ {
        Some(4u8)
    } else if name == "cone"@ {
        Some(5u8)
    } else if name == "torus"@ {
        Some(6u8)
    } else if name == "plane"@ {
        Some(7u8)
    } else if name == "ellipsoid"@ {
        Some(8u8)
    } else if name == "cube"@ {
        Some(9u8)
    } else {
        None
    }
}

/// The property name that a tag stands for.
pub open spec fn property_name(tag: u8) -> Option<Seq<char>> {
    if tag == 1 {
        Some("radius"@)
    } else if tag == 2 {
        Some("size"@)
    } else if tag == 3 {
        Some("at"@)
    } else if tag == 4 {
        Some("mat"@)
    } else if tag == 5 {
        Some("k"@)
    } else if tag == 6 {
        Some("rot"@)
    } else if tag == 7 {
        Some("scale"@)
    } else if tag == 8 {
        Some("height"@)
    } else if tag == 9 {
        Some("width"@)
    } else if tag == 10 {
        Some("depth"@)
    } else if tag == 11 {
        Some("center"@)
    } else if tag == 12 {
        Some("axis"@)
    } else if tag == 13 {
        Some("normal"@)
    } else if tag == 14 {
        Some("inner_radius"@)
    } else if tag == 15 {
        Some("outer_radius"@)
    } else {
        None
    }
}

/// The tag of a property name, where it has one.
pub open spec fn property_tag(name: Seq<char>) -> Option<u8> {
    if name == "radius"@ {
        Some(1u8)
    } else if name == "size"@ {
        Some(2u8)
    } else if name == "at"@ {
        Some(3u8)
    } else if name == "mat"@ {
        Some(4u8)
    } else if name == "k"@ {
        Some(5u8)
    } else if name == "rot"@ {
        Some(6u8)
    } else if name == "scale"@ {
        Some(7u8)
    } else if name == "height"@ {
        Some(8u8)
    } else if name == "width"@ {
        Some(9u8)
    } else if name == "depth"@ {
        Some(10u8)
    } else if name == "center"@ {
        Some(11u8)
    } else if name == "axis"@ {
        Some(12u8)
    } else if name == "normal"@ {
        Some(13u8)
    } else if name == "inner_radius"@ {
        Some(14u8)
    } else if name == "outer_radius"@ {
        Some(15u8)
    } else {
        None
    }
}

/// Which of the two name tables a tagged name is looked up in.
#[derive(Clone, Copy, PartialEq, Eq, Structural)]
pub enum NameTable {
    Primitive,
    Property,
}

/// The name that a tag stands for in a table.
pub open spec fn table_name(table: NameTable, tag: u8) -> Option<Seq<char>> {
    match table {
        NameTable::Primitive => primitive_name(tag),
        NameTable::Property => property_name(tag),
    }
}

/// The tag that a name has in a table.
pub open spec fn table_tag(table: NameTable, name: Seq<char>) -> Option<u8> {
    match table {
        NameTable::Primitive => primitive_tag(name),
        NameTable::Property => property_tag(name),
    }
}

/// The word that error messages use for a table's names.
pub open spec fn table_word(table: NameTable) -> Seq<char> {
    match table {
        NameTable::Primitive => "primitive"@,
        NameTable::Property => "property"@,
    }
}

/// What the names of a table are, for messages.
pub fn table_word_str(table: NameTable) -> (r: &'static str)
    ensures
        r@ == table_word(table),
{
    match table {
        NameTable::Primitive => "primitive",
        NameTable::Property => "property",
    }
}

/// Looks up the primitive name of a tag.
pub fn primitive_tag_to_name(tag: u8) -> (r: Option<&'static str>)
    ensures
        match r {
            Some(n) => primitive_name(tag) == Some(n@),
            None => primitive_name(tag) is None,
        },
{
    match tag {
        1 => Some("sphere"),
        2 => Some("box"),
        3 => Some("cylinder"),
        4 => Some("capsule"),
        5 => Some("cone"),
        6 => Some("torus"),
        7 => Some("plane"),
        8 => Some("ellipsoid"),
        9 => Some("cube"),
        _ => None,
    }
}

/// Looks up the tag of a primitive name.
pub fn primitive_name_to_tag(name: &str) -> (r: Option<u8>)
    ensures
        r == primitive_tag(name@),
{
    if str_eq(name, "sphere") {
        Some(1)
    } else if str_eq(name, "box") {
        Some(2)
    } else if str_eq(name, "cylinder") {
        Some(3)
    } else if str_eq(name, "capsule") {
        Some(4)
    } else if str_eq(name, "cone") {
        Some(5)
    } else if str_eq(name, "torus") {
        Some(6)
    } else if str_eq(name, "plane") {
        Some(7)
    } else if str_eq(name, "ellipsoid") {
        Some(8)
    } else if str_eq(name, "cube") {
        Some(9)
    } else {
        None
    }
}

/// Looks up the property name of a tag.
pub fn property_tag_to_name(tag: u8) -> (r: Option<&'static str>)
    ensures
        match r {
            Some(n) => property_name(tag) == Some(n@),
            None => property_name(tag) is None,
        },
{
    match tag {
        1 => Some("radius"),
        2 => Some("size"),
        3 => Some("at"),
        4 => Some("mat"),
        5 => Some("k"),
        6 => Some("rot"),
        7 => Some("scale"),
        8 => Some("height"),
        9 => Some("width"),
        10 => Some("depth"),
        11 => Some("center"),
        12 => Some("axis"),
        13 => Some("normal"),
        14 => Some("inner_radius"),
        15 => Some("outer_radius"),
        _ => None,
    }
}

/// Looks up the tag of a property name.
pub fn property_name_to_tag(name: &str) -> (r: Option<u8>)
    ensures
        r == property_tag(name@),
{
    if str_eq(name, "radius") {
        Some(1)
    } else if str_eq(name, "size") {
        Some(2)
    } else if str_eq(name, "at") {
        Some(3)
    } else if str_eq(name, "mat") {
        Some(4)
    } else if str_eq(name, "k") {
        Some(5)
    } else if str_eq(name, "rot") {
        Some(6)
    } else if str_eq(name, "scale") {
        Some(7)
    } else if str_eq(name, "height") {
        Some(8)
    } else if str_eq(name, "width") {
        Some(9)
    } else if str_eq(name, "depth") {
        Some(10)
    } else if str_eq(name, "center") {
        Some(11)
    } else if str_eq(name, "axis") {
        Some(12)
    } else if str_eq(name, "normal") {
        Some(13)
    } else if str_eq(name, "inner_radius") {
        Some(14)
    } else if str_eq(name, "outer_radius") {
        Some(15)
    } else {
        None
    }
}

/// The tag of a name in a table, if it has one.
pub fn name_to_tag(table: NameTable, name: &str) -> (r: Option<u8>)
    ensures
        r == table_tag(table, name@),
{
    match table {
        NameTable::Primitive => primitive_name_to_tag(name),
        NameTable::Property => property_name_to_tag(name),
    }
}

/// The name that a tag stands for in a table, if any.
pub fn tag_to_name(table: NameTable, tag: u8) -> (r: Option<&'static str>)
    ensures
        match r {
            Some(n) => table_name(table, tag) == Some(n@),
            None => table_name(table, tag) is None,
        },
{
    match table {
        NameTable::Primitive => primitive_tag_to_name(tag),
        NameTable::Property => property_tag_to_name(tag),
    }
}

/// A tag names exactly the name whose tag it is: looking a tag's name up
/// gives the tag back, and no name has the tag 0.
pub proof fn lemma_table_roundtrip(table: NameTable, name: Seq<char>)
    ensures
        table_tag(table, name) matches Some(t) ==> t != 0 && table_name(table, t) == Some(name),
{
    reveal_strlit("sphere");
    reveal_strlit("box");
    reveal_strlit("cylinder");
    reveal_strlit("capsule");
    reveal_strlit("cone");
    reveal_strlit("torus");
    reveal_strlit("plane");
    reveal_strlit("ellipsoid");
    reveal_strlit("cube");
    reveal_strlit("radius");
    reveal_strlit("size");
    reveal_strlit("at");
    reveal_strlit("mat");
    reveal_strlit("k");
    reveal_strlit("rot");
    reveal_strlit("scale");
    reveal_strlit("height");
    reveal_strlit("width");
    reveal_strlit("depth");
    reveal_strlit("center");
    reveal_strlit("axis");
    reveal_strlit("normal");
    reveal_strlit("inner_radius");
    reveal_strlit("outer_radius");
}

} // verus!
