use bytes::BytesMut;
use osm2pio::fs::{format_property, read_osmpbf, split_property, write_geojson, Osm};
use osm2pio::osmpbf::{process_nodes, process_ways, Element, NodeData, RelationData, WayData};
use osm2pio::process::binary_geom::{Wkb, WkbWriteError};
use osm2pio::process::elements;
use osm2pio::process::nodes;
use osm2pio::utils::config::{Config, Kvat};
use osm2pio::utils::geo::{Geometry, Point};
use osm2pio::utils::validate::FieldType;

fn s(t: &str) -> String {
    t.to_string()
}

fn node(id: i64, tags: &[(&str, &str)]) -> NodeData {
    NodeData {
        id,
        tags: tags.iter().map(|(k, v)| (s(k), s(v))).collect(),
        nano_lat: 35_292_000_000,
        nano_lon: -2_938_000_000,
    }
}

fn sample_elements() -> Vec<Element> {
    vec![
        Element::Node(node(1, &[("amenity", "bus_stop"), ("name", "Plaza")])),
        Element::Way(WayData { id: 2, tags: vec![(s("highway"), s("service"))] }),
        Element::DenseNode(node(3, &[])),
        Element::Relation(RelationData { id: 4, tags: vec![] }),
    ]
}

#[test]
fn format_and_split_property() {
    assert_eq!(format_property("amenity", "bus_stop"), s("amenity: bus_stop"));
    assert_eq!(split_property("amenity: bus_stop"), (s("amenity"), s("bus_stop")));
    assert_eq!(split_property("a: b: c"), (s("a"), s("b")));
    assert_eq!(split_property(": x"), (s(""), s("x")));
    assert_eq!(split_property("k: "), (s("k"), s("")));
    assert_eq!(split_property("a:: b"), (s("a:"), s("b")));
}

#[test]
fn split_gives_back_formatted_tag() {
    for (k, v) in [("name", "Plaza"), ("addr:street", "Calle 1"), ("", ""), ("a:", " b")] {
        assert_eq!(split_property(&format_property(k, v)), (s(k), s(v)));
    }
}

#[test]
fn read_osmpbf_keeps_nodes() {
    let osm = read_osmpbf(&sample_elements());
    assert_eq!(osm.len(), 2);
    assert_eq!(osm[0].id, 1);
    assert_eq!(osm[0].properties, vec![s("amenity: bus_stop"), s("name: Plaza")]);
    assert_eq!(
        osm[0].geometry,
        Geometry::Point(Point { nano_lon: -2_938_000_000, nano_lat: 35_292_000_000 })
    );
    assert_eq!(osm[1].id, 3);
    assert!(osm[1].properties.is_empty());
}

#[test]
fn write_geojson_splits_properties() {
    let objects = read_osmpbf(&sample_elements());
    let features = write_geojson(&objects);
    assert_eq!(features.len(), 2);
    assert_eq!(features[0].id, 1);
    assert_eq!(features[0].properties, vec![(s("amenity"), s("bus_stop")), (s("name"), s("Plaza"))]);
    let other = vec![Osm {
        id: 9,
        properties: vec![s("a: b: c")],
        geometry: Geometry::Point(Point { nano_lon: 0, nano_lat: 0 }),
    }];
    assert_eq!(write_geojson(&other)[0].properties, vec![(s("a"), s("b"))]);
}

#[test]
fn node_ids() {
    let els = sample_elements();
    let ids: Vec<Option<i64>> = els.iter().map(process_nodes).collect();
    assert_eq!(ids, vec![Some(1), None, Some(3), None]);
    let big = Element::Node(node(4_294_967_297, &[]));
    assert_eq!(nodes(&big), Some(1));
    let neg = Element::DenseNode(node(-5, &[]));
    assert_eq!(nodes(&neg), Some(-5));
    assert_eq!(nodes(&els[1]), None);
    process_ways();
}

#[test]
fn node_rows() {
    let configs = vec![Config {
        schema: s("omt"),
        layer: s("poi"),
        geometry_types: vec![s("Point")],
        fields: vec![],
        class: Some(vec![Kvat {
            key: s("amenity"),
            values: vec![s("bus_stop")],
            and: None,
            then_class: s("bus"),
        }]),
    }];
    let els = sample_elements();
    let row = elements::process_nodes(&els[0], &configs).unwrap();
    assert_eq!(row.id, 1);
    assert_eq!(row.properties.get("class"), Some(&FieldType::Text(s("bus"))));
    assert_eq!(row.geometry, Geometry::Point(Point { nano_lon: -2_938_000_000, nano_lat: 35_292_000_000 }));
    let empty = elements::process_nodes(&els[2], &configs).unwrap();
    assert_eq!(empty.properties.get("class"), None);
    assert!(elements::process_nodes(&els[1], &configs).is_none());
    assert!(elements::process_nodes(&els[3], &configs).is_none());
}

#[test]
fn wkb_to_sql_appends_bytes() {
    let wkb = Wkb { geometry: vec![1, 1, 0, 0, 0] };
    let mut out = BytesMut::new();
    out.extend_from_slice(&[9, 9]);
    wkb.to_sql(&mut out);
    assert_eq!(&out[..], &[9, 9, 1, 1, 0, 0, 0]);
}

#[test]
fn wkb_accepts_geometry_only() {
    assert!(Wkb::accepts("geometry"));
    assert!(!Wkb::accepts("geography"));
    assert!(!Wkb::accepts("Geometry"));
    let wkb = Wkb { geometry: vec![7] };
    let mut out = BytesMut::new();
    assert_eq!(wkb.to_sql_checked("int4", &mut out), Err(WkbWriteError::WrongType));
    assert!(out.is_empty());
    assert_eq!(wkb.to_sql_checked("geometry", &mut out), Ok(()));
    assert_eq!(&out[..], &[7]);
}
