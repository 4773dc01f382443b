//! Points of interest sorted by a schema, grouped by layer.

pub mod omt;

use vstd::prelude::*;
use crate::utils::assoc::{entries_view, last_wins};
use crate::utils::geo::Geometry;

verus! {

/// A property value. A float is held by its decimal text.
#[derive(Debug, Clone, PartialEq)]
pub enum PropertyValue {
    Integer(i64),
    Float(String),
    Text(String),
    Boolean(bool),
}

/// A property value, texts taken by their characters.
pub enum PropertyValueView {
    Integer(i64),
    Float(Seq<char>),
    Text(Seq<char>),
    Boolean(bool),
}

impl View for PropertyValue {
    type V = PropertyValueView;

    open spec fn view(&self) -> PropertyValueView {
        match self {
            PropertyValue::Integer(i) => PropertyValueView::Integer(*i),
            PropertyValue::Float(t) => PropertyValueView::Float(t@),
            PropertyValue::Text(t) => PropertyValueView::Text(t@),
            PropertyValue::Boolean(b) => PropertyValueView::Boolean(*b),
        }
    }
}

impl PropertyValue {
    /// A copy of the value.
    pub fn duplicate(&self) -> (r: PropertyValue)
        ensures
            r@ == self@,
    {
        match self {
            PropertyValue::Integer(i) => PropertyValue::Integer(*i),
            PropertyValue::Float(t) => PropertyValue::Float(t.clone()),
            PropertyValue::Text(t) => PropertyValue::Text(t.clone()),
            PropertyValue::Boolean(b) => PropertyValue::Boolean(*b),
        }
    }
}

/// A point of interest: the element's id and kind, its geometry and its
/// properties, a later entry replacing an earlier one with the same key.
#[derive(Debug, Clone, PartialEq)]
pub struct Pio {
    pub osm_id: i64,
    pub osm_type: String,
    pub geometry: Geometry,
    pub properties: Vec<(String, PropertyValue)>,
}

impl Pio {
    /// The properties as a map.
    pub open spec fn properties_map(&self) -> Map<Seq<char>, PropertyValueView> {
        last_wins(entries_view(self.properties@))
    }
}

/// The points of interest of a layer, in order.
#[derive(Debug, Clone, PartialEq)]
pub struct PioCollection {
    pub objects: Vec<Pio>,
    pub layer: String,
}

/// The layer name `default`.
pub open spec fn default_layer() -> Seq<char> {
    seq!['d', 'e', 'f', 'a', 'u', 'l', 't']
}

impl PioCollection {
    /// An empty collection of the layer `default`.
    pub fn new() -> (r: PioCollection)
        ensures
            r.layer@ == default_layer(),
            r.objects@.len() == 0,
    {
        let layer = String::from_str("default");
        proof {
            reveal_strlit("default");
            assert("default"@ =~= default_layer());
        }
        PioCollection { layer, objects: Vec::new() }
    }

    /// Appends a point of interest.
    pub fn add(&mut self, object: Pio)
        ensures
            final(self).objects@ == old(self).objects@.push(object),
            final(self).layer == old(self).layer,
    {
        self.objects.push(object);
    }
}

} // verus!
