//! The elements of an OSM PBF file as the loader reads them, and what it
//! keeps of them.

use vstd::prelude::*;
use crate::utils::geo::Geometry;

verus! {

/// A node: its id, its tags in file order, and its position in nanodegrees.
#[derive(Debug, Clone, PartialEq)]
pub struct NodeData {
    pub id: i64,
    pub tags: Vec<(String, String)>,
    pub nano_lat: i64,
    pub nano_lon: i64,
}

/// A way: its id and its tags in file order.
#[derive(Debug, Clone, PartialEq)]
pub struct WayData {
    pub id: i64,
    pub tags: Vec<(String, String)>,
}

/// A relation: its id and its tags in file order.
#[derive(Debug, Clone, PartialEq)]
pub struct RelationData {
    pub id: i64,
    pub tags: Vec<(String, String)>,
}

/// An element of an OSM PBF file.
#[derive(Debug, Clone, PartialEq)]
pub enum Element {
    Node(NodeData),
    DenseNode(NodeData),
    Way(WayData),
    Relation(RelationData),
}

/// A tag of an element.
#[derive(Debug, Clone, PartialEq)]
pub struct Property {
    pub key: String,
    pub value: String,
}

/// An element kept for sorting: its id, its kind, its tags, its geometry and
/// the name of its geometry type.
#[derive(Debug, Clone, PartialEq)]
pub struct Osm {
    pub id: i64,
    pub osm_type: String,
    pub properties: Vec<Property>,
    pub geometry: Option<Geometry>,
    pub geometry_type: Option<String>,
}

/// The id under which an element is inserted into the `pio` table: that of a
/// node or dense node; ways and relations are skipped.
pub fn process_nodes(element: &Element) -> (r: Option<i64>)
    ensures
        r == match element {
            Element::Node(n) => Some(n.id),
            Element::DenseNode(n) => Some(n.id),
            _ => None,
        },
{
    match element {
        Element::Node(n) => Some(n.id),
        Element::DenseNode(n) => Some(n.id),
        _ => None,
    }
}

/// Ways are not loaded yet: there is nothing to do for them.
pub fn process_ways() {
}

} // verus!

verus! {

/// The elements kept for sorting, in the order they were read.
#[derive(Debug, Clone, PartialEq)]
pub struct OsmCollection {
    pub objects: Vec<Osm>,
}

} // verus!
