//! The schema configuration that a YAML file describes: which geometry types a
//! layer takes, which tags become fields, and which tag values give a class.

use vstd::prelude::*;

verus! {

/// A schema: its name, the layer it fills, the geometry types it accepts, the
/// fields it copies from tags and the rules that give an element its class.
#[derive(Debug, Clone, PartialEq)]
pub struct Config {
    pub schema: String,
    pub layer: String,
    pub geometry_types: Vec<String>,
    pub fields: Vec<Field>,
    pub class: Option<Vec<Kvat>>,
}

/// A tag copied into the properties, under `rename_to` where it is given,
/// its value first mapped through `mapping`.
#[derive(Debug, Clone, PartialEq)]
pub struct Field {
    pub name: String,
    pub field_type: String,
    pub rename_to: Option<String>,
    pub mapping: Option<Vec<Mapping>>,
}

/// A class rule: when tag `key` has one of `values` (and, where `and` is
/// given, one of its conditions holds too), the class is `then_class`.
#[derive(Debug, Clone, PartialEq)]
pub struct Kvat {
    pub key: String,
    pub values: Vec<String>,
    pub and: Option<Vec<Kv>>,
    pub then_class: String,
}

/// A condition: tag `key` has one of `values`.
#[derive(Debug, Clone, PartialEq)]
pub struct Kv {
    pub key: String,
    pub values: Vec<String>,
}

/// A mapping of a tag value `key` into `value`.
#[derive(Debug, Clone, PartialEq)]
pub struct Mapping {
    pub key: String,
    pub value: String,
}

/// `t` is one of the texts in `values`.
pub open spec fn contains_text(values: Seq<String>, t: Seq<char>) -> bool {
    exists|i: int| 0 <= i < values.len() && #[trigger] values[i]@ == t
}

/// Whether `value` is one of `values`.
pub fn values_contain(values: &Vec<String>, value: &str) -> (r: bool)
    ensures
        r == contains_text(values@, value@),
{
    let wanted = value.to_owned();
    let mut i: usize = 0;
    while i < values.len()
        invariant
            i <= values@.len(),
            wanted@ == value@,
            forall|j: int| 0 <= j < i ==> #[trigger] values@[j]@ != value@,
        decreases values@.len() - i,
    {
        if values[i] == wanted {
            return true;
        }
        i = i + 1;
    }
    false
}

} // verus!
