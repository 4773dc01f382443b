use osm2pio::osmpbf::{NodeData, RelationData, WayData};
use osm2pio::process::properties::{
    sort_class, sort_fields, sort_tags, OsmType, Properties, SortClassError, Tags,
};
use osm2pio::utils::config::{Config, Field, Kv, Kvat, Mapping};
use osm2pio::utils::validate::FieldType;

fn s(t: &str) -> String {
    t.to_string()
}

fn tags_of(pairs: &[(&str, &str)]) -> Tags {
    let mut tags = Tags::new();
    for (k, v) in pairs {
        tags.insert(k, v);
    }
    tags
}

fn config(class: Option<Vec<Kvat>>, fields: Vec<Field>) -> Config {
    Config {
        schema: s("omt"),
        layer: s("test"),
        geometry_types: vec![s("Point"), s("LineString"), s("Polygon")],
        fields,
        class,
    }
}

#[test]
fn test_properties() {
    let mut properties = Properties::new();
    properties.add("key", FieldType::Text("value".to_string()));
    assert_eq!(properties.get("key"), Some(&FieldType::Text("value".to_string())));
}

#[test]
fn test_sort_class() {
    let mut tags = Tags::new();
    tags.insert("key", "value");

    let kvat = Kvat {
        key: "key".to_string(),
        values: vec!["value".to_string()],
        and: None,
        then_class: "class".to_string(),
    };

    let class = vec![kvat];

    let config = Config {
        schema: "omt".to_string(),
        layer: "test".to_string(),
        geometry_types: vec!["Point".to_string(), "LineString".to_string(), "Polygon".to_string()],
        fields: vec![],
        class: Some(class),
    };

    let result = sort_class(&config, &tags).unwrap();
    assert_eq!(result, ("class".to_string(), "class".to_string()));
}

#[test]
fn properties_later_add_replaces_earlier() {
    let mut p = Properties::new();
    p.add("a", FieldType::Integer(1));
    p.add("b", FieldType::Boolean(true));
    p.add("a", FieldType::Text(s("x")));
    assert_eq!(p.get("a"), Some(&FieldType::Text(s("x"))));
    assert_eq!(p.get("b"), Some(&FieldType::Boolean(true)));
    assert_eq!(p.get("c"), None);
}

#[test]
fn tags_read_after_write() {
    let mut t = Tags::new();
    assert_eq!(t.get("amenity"), None);
    t.insert("amenity", "bus_stop");
    t.insert("name", "Central");
    t.insert("amenity", "bench");
    assert_eq!(t.get("amenity"), Some(&s("bench")));
    assert_eq!(t.get("name"), Some(&s("Central")));
    assert_eq!(t.get("Name"), None);
}

#[test]
fn tags_from_pairs_last_wins() {
    let pairs = vec![(s("k"), s("1")), (s("j"), s("2")), (s("k"), s("3"))];
    let t = Tags::from_pairs(&pairs);
    assert_eq!(t.get("k"), Some(&s("3")));
    assert_eq!(t.get("j"), Some(&s("2")));
}

fn railway_rules() -> Vec<Kvat> {
    vec![
        Kvat {
            key: s("amenity"),
            values: vec![s("bus_stop"), s("bus_station")],
            and: None,
            then_class: s("bus"),
        },
        Kvat {
            key: s("railway"),
            values: vec![s("halt"), s("tram_stop"), s("subway")],
            and: Some(vec![
                Kv { key: s("railway"), values: vec![s("station")] },
                Kv { key: s("public_transport"), values: vec![s("station")] },
            ]),
            then_class: s("railway"),
        },
    ]
}

#[test]
fn sort_class_first_rule_wins() {
    let c = config(Some(railway_rules()), vec![]);
    let tags = tags_of(&[("amenity", "bus_station"), ("railway", "halt")]);
    assert_eq!(sort_class(&c, &tags), Ok((s("class"), s("bus"))));
}

#[test]
fn sort_class_and_needs_one_condition() {
    let c = config(Some(railway_rules()), vec![]);
    let without = tags_of(&[("railway", "halt")]);
    assert_eq!(sort_class(&c, &without), Err(SortClassError::NoMatchingClass));
    let with = tags_of(&[("railway", "halt"), ("public_transport", "station")]);
    assert_eq!(sort_class(&c, &with), Ok((s("class"), s("railway"))));
}

#[test]
fn sort_class_without_rules_or_value() {
    let none = config(None, vec![]);
    let tags = tags_of(&[("amenity", "bus_stop")]);
    assert_eq!(sort_class(&none, &tags), Err(SortClassError::NoMatchingClass));
    let c = config(Some(railway_rules()), vec![]);
    let other = tags_of(&[("amenity", "bench")]);
    assert_eq!(sort_class(&c, &other), Err(SortClassError::NoMatchingClass));
}

fn name_fields() -> Vec<Field> {
    vec![
        Field { name: s("name:en"), field_type: s("string"), rename_to: Some(s("name_en")), mapping: None },
        Field {
            name: s("wheelchair"),
            field_type: s("boolean"),
            rename_to: None,
            mapping: Some(vec![
                Mapping { key: s("yes"), value: s("true") },
                Mapping { key: s("no"), value: s("false") },
            ]),
        },
        Field { name: s("level"), field_type: s("integer"), rename_to: None, mapping: None },
    ]
}

#[test]
fn sort_fields_class_rename_and_mapping() {
    let configs = vec![config(Some(railway_rules()), name_fields())];
    let tags = tags_of(&[
        ("amenity", "bus_stop"),
        ("name:en", "Central"),
        ("wheelchair", "yes"),
        ("level", "-1"),
        ("ignored", "x"),
    ]);
    let p = sort_fields(&tags, &configs);
    assert_eq!(p.get("class"), Some(&FieldType::Text(s("bus"))));
    assert_eq!(p.get("name_en"), Some(&FieldType::Text(s("Central"))));
    assert_eq!(p.get("name:en"), None);
    assert_eq!(p.get("wheelchair"), Some(&FieldType::Boolean(true)));
    assert_eq!(p.get("level"), Some(&FieldType::Integer(-1)));
    assert_eq!(p.get("ignored"), None);
}

#[test]
fn sort_fields_later_schema_overrides() {
    let first = config(Some(railway_rules()), vec![]);
    let second = config(
        Some(vec![Kvat { key: s("amenity"), values: vec![s("bus_stop")], and: None, then_class: s("stop") }]),
        vec![],
    );
    let tags = tags_of(&[("amenity", "bus_stop")]);
    let p = sort_fields(&tags, &vec![first, second]);
    assert_eq!(p.get("class"), Some(&FieldType::Text(s("stop"))));
    let empty = sort_fields(&tags, &vec![]);
    assert_eq!(empty.jsonb.len(), 0);
}

#[test]
fn sort_tags_of_each_element_kind() {
    let configs = vec![config(Some(railway_rules()), name_fields())];
    let tags = vec![(s("amenity"), s("bus_station")), (s("level"), s("2.5"))];
    let node = NodeData { id: 1, tags: tags.clone(), nano_lat: 0, nano_lon: 0 };
    let way = WayData { id: 2, tags: tags.clone() };
    let relation = RelationData { id: 3, tags: tags.clone() };
    for element in [OsmType::Node(&node), OsmType::DenseNode(&node), OsmType::Way(&way), OsmType::Relation(&relation)] {
        let p = sort_tags(element, &configs);
        assert_eq!(p.get("class"), Some(&FieldType::Text(s("bus"))));
        assert_eq!(p.get("level"), Some(&FieldType::Float(s("2.5"))));
    }
}
