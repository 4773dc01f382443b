//! The rows written for OSM nodes: id, properties and point geometry.

use vstd::prelude::*;
use crate::osmpbf::Element;
use crate::process::properties::{sort_tags, spec_sort_fields, OsmType, Properties};
use crate::utils::assoc::{entries_view, last_wins};
use crate::utils::config::Config;
use crate::utils::geo::{Geometry, Point};

verus! {

/// A row of the `pio` table: the id cut to 32 bits, the properties and the
/// point.
pub struct NodeRow {
    pub id: i32,
    pub properties: Properties,
    pub geometry: Geometry,
}

/// The row for a node or dense node: its id as `i32`, the properties that the
/// schemas give its tags, and its position as a point (longitude, latitude);
/// ways and relations give no row.
pub fn process_nodes(element: &Element, configs: &Vec<Config>) -> (r: Option<NodeRow>)
    ensures
        match element {
            Element::Node(n) | Element::DenseNode(n) => r matches Some(row) && row.id == n.id as i32
                && row.properties@ == spec_sort_fields(last_wins(entries_view(n.tags@)), configs@)
                && row.geometry == Geometry::Point(Point { nano_lon: n.nano_lon, nano_lat: n.nano_lat }),
            _ => r is None,
        },
{
    match element {
        Element::Node(n) => {
            let properties = sort_tags(OsmType::Node(n), configs);
            let geometry = Geometry::Point(Point { nano_lon: n.nano_lon, nano_lat: n.nano_lat });
            Some(NodeRow { id: n.id as i32, properties, geometry })
        },
        Element::DenseNode(d) => {
            let properties = sort_tags(OsmType::DenseNode(d), configs);
            let geometry = Geometry::Point(Point { nano_lon: d.nano_lon, nano_lat: d.nano_lat });
            Some(NodeRow { id: d.id as i32, properties, geometry })
        },
        _ => None,
    }
}

} // verus!
