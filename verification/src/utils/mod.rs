//! Configuration, arguments, geometry, and the GeoJSON features written for a
//! layer of points of interest.

pub mod assoc;
pub mod cli;
pub mod config;
pub mod geo;
pub mod validate;

use vstd::prelude::*;
use crate::schema::{Pio, PioCollection, PropertyValue, PropertyValueView};
use crate::utils::assoc::{entries_view, last_wins, lemma_last_wins_concat};
use crate::utils::geo::Geometry;

verus! {

/// A GeoJSON feature of a point of interest: the element's id, its geometry
/// and its properties in order, a later entry replacing an earlier one with
/// the same key.
#[derive(Debug, Clone, PartialEq)]
pub struct PioFeature {
    pub id: i64,
    pub geometry: Geometry,
    pub properties: Vec<(String, PropertyValue)>,
}

/// The features of a layer and the name of the file they are written to.
#[derive(Debug, Clone, PartialEq)]
pub struct GeoJsonFile {
    pub file_name: String,
    pub features: Vec<PioFeature>,
}

/// The key `osm_type`.
pub open spec fn osm_type_key() -> Seq<char> {
    seq!['o', 's', 'm', '_', 't', 'y', 'p', 'e']
}

/// The suffix `.geojson`.
pub open spec fn geojson_suffix() -> Seq<char> {
    seq!['.', 'g', 'e', 'o', 'j', 's', 'o', 'n']
}

/// The entries of the feature of `pio`: `osm_type` first, then its
/// properties in order.
pub open spec fn feature_entries(pio: Pio) -> Seq<(Seq<char>, PropertyValueView)> {
    seq![(osm_type_key(), PropertyValueView::Text(pio.osm_type@))] + entries_view(pio.properties@)
}

/// `f` is the feature of `pio`.
pub open spec fn is_pio_feature(f: PioFeature, pio: Pio) -> bool {
    &&& f.id == pio.osm_id
    &&& f.geometry == pio.geometry
    &&& entries_view(f.properties@) == feature_entries(pio)
}

/// The feature of a point of interest.
fn pio_feature(pio: &Pio) -> (r: PioFeature)
    ensures
        is_pio_feature(r, *pio),
{
    let mut properties: Vec<(String, PropertyValue)> = Vec::new();
    let key = String::from_str("osm_type");
    proof {
        reveal_strlit("osm_type");
        assert("osm_type"@ =~= osm_type_key());
    }
    properties.push((key, PropertyValue::Text(pio.osm_type.clone())));
    let mut i: usize = 0;
    while i < pio.properties.len()
        invariant
            i <= pio.properties@.len(),
            entries_view(properties@) =~= seq![
                (osm_type_key(), PropertyValueView::Text(pio.osm_type@)),
            ] + entries_view(pio.properties@.take(i as int)),
        decreases pio.properties@.len() - i,
    {
        let (k, v) = (&pio.properties[i].0, &pio.properties[i].1);
        let ghost before = properties@;
        properties.push((k.clone(), v.duplicate()));
        assert(entries_view(properties@) =~= entries_view(before).push((k@, v@)));
        assert(entries_view(pio.properties@.take(i + 1)) =~= entries_view(
            pio.properties@.take(i as int),
        ).push((pio.properties@[i as int].0@, pio.properties@[i as int].1@)));
        i = i + 1;
    }
    assert(pio.properties@.take(i as int) =~= pio.properties@);
    PioFeature { id: pio.osm_id, geometry: pio.geometry, properties }
}

/// The GeoJSON of a layer: one feature per point of interest, in order, and
/// the file name `<layer>.geojson`.
pub fn write_geojson(pc: &PioCollection) -> (r: GeoJsonFile)
    ensures
        r.file_name@ == pc.layer@ + geojson_suffix(),
        r.features@.len() == pc.objects@.len(),
        forall|j: int|
            0 <= j < pc.objects@.len() ==> is_pio_feature(#[trigger] r.features@[j], pc.objects@[j]),
{
    let mut file_name = pc.layer.clone();
    proof {
        reveal_strlit(".geojson");
        assert(".geojson"@ =~= geojson_suffix());
    }
    file_name.append(".geojson");
    let mut features: Vec<PioFeature> = Vec::new();
    let mut j: usize = 0;
    while j < pc.objects.len()
        invariant
            j <= pc.objects@.len(),
            features@.len() == j,
            forall|k: int| 0 <= k < j ==> is_pio_feature(#[trigger] features@[k], pc.objects@[k]),
        decreases pc.objects@.len() - j,
    {
        features.push(pio_feature(&pc.objects[j]));
        j = j + 1;
    }
    GeoJsonFile { file_name, features }
}

/// A feature's properties are `osm_type` set to the element's kind, overridden
/// by the point of interest's own properties where they share a key.
pub proof fn law_feature_properties(f: PioFeature, pio: Pio)
    requires
        is_pio_feature(f, pio),
    ensures
        last_wins(entries_view(f.properties@)) == Map::<Seq<char>, PropertyValueView>::empty().insert(
            osm_type_key(),
            PropertyValueView::Text(pio.osm_type@),
        ).union_prefer_right(pio.properties_map()),
{
    let head = seq![(osm_type_key(), PropertyValueView::Text(pio.osm_type@))];
    lemma_last_wins_concat(head, entries_view(pio.properties@));
    assert(head.drop_last() =~= Seq::<(Seq<char>, PropertyValueView)>::empty());
    assert(last_wins(head.drop_last()) == Map::<Seq<char>, PropertyValueView>::empty());
    assert(entries_view(f.properties@) == head + entries_view(pio.properties@));
}

} // verus!
