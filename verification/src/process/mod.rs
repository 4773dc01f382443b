//! Turning OSM elements into rows of the `pio` table.

pub mod binary_geom;
pub mod elements;
pub mod properties;

use vstd::prelude::*;
use crate::osmpbf::Element;
use crate::utils::geo::Geometry;

verus! {

/// A tag of an element.
#[derive(Debug, Clone, PartialEq)]
pub struct Property {
    pub key: String,
    pub value: String,
}

/// A point of interest: its id, its kind, its tags and its geometry.
#[derive(Debug, Clone, PartialEq)]
pub struct Pio {
    pub id: i64,
    pub osm_type: String,
    pub properties: Vec<Property>,
    pub geometry: Option<Geometry>,
}

/// The id column written for an element: the id of a node or dense node,
/// cut to 32 bits as `as i32` does (its low 32 bits, two's complement); ways
/// and relations give no row.
pub fn nodes(element: &Element) -> (r: Option<i32>)
    ensures
        r == match element {
            Element::Node(n) => Some(n.id as i32),
            Element::DenseNode(n) => Some(n.id as i32),
            _ => None,
        },
{
    match element {
        Element::Node(n) => Some(n.id as i32),
        Element::DenseNode(n) => Some(n.id as i32),
        _ => None,
    }
}

/// An id in the range of `i32` keeps its value in the id column.
pub proof fn law_node_id_in_range_kept(id: i64)
    requires
        i32::MIN <= id <= i32::MAX,
    ensures
        id as i32 == id,
{
}

} // verus!
