use osm2pio::osmpbf::{Osm, OsmCollection, Property};
use osm2pio::pg::pool::{job_start, job_step, JobAction, JobEvent, JobState};
use osm2pio::schema::omt::{apply, to_omt};
use osm2pio::schema::{Pio, PioCollection, PropertyValue};
use osm2pio::utils::config::{Config, Kv, Kvat};
use osm2pio::utils::geo::{Geometry, Point};
use osm2pio::utils::write_geojson;

fn s(t: &str) -> String {
    t.to_string()
}

fn omt_config() -> Config {
    Config {
        schema: s("omt"),
        layer: s("transport"),
        geometry_types: vec![s("Point"), s("LineString"), s("Polygon")],
        fields: vec![],
        class: Some(vec![
            Kvat { key: s("amenity"), values: vec![s("bus_stop"), s("bus_station")], and: None, then_class: s("bus") },
            Kvat {
                key: s("railway"),
                values: vec![s("halt"), s("tram_stop"), s("subway")],
                and: Some(vec![Kv { key: s("railway"), values: vec![s("station")] }]),
                then_class: s("railway"),
            },
        ]),
    }
}

fn point() -> Geometry {
    Geometry::Point(Point { nano_lon: 1_000_000_000, nano_lat: 2_000_000_000 })
}

fn osm(id: i64, props: &[(&str, &str)], geometry_type: Option<&str>) -> Osm {
    Osm {
        id,
        osm_type: s("node"),
        properties: props.iter().map(|(k, v)| Property { key: s(k), value: s(v) }).collect(),
        geometry: Some(point()),
        geometry_type: geometry_type.map(s),
    }
}

#[test]
fn pio_collection_new_and_add() {
    let mut pc = PioCollection::new();
    assert_eq!(pc.layer, s("default"));
    assert!(pc.objects.is_empty());
    let pio = Pio { osm_id: 1, osm_type: s("node"), geometry: point(), properties: vec![] };
    pc.add(pio.clone());
    assert_eq!(pc.objects, vec![pio]);
    assert_eq!(pc.layer, s("default"));
}

#[test]
fn to_omt_classifies() {
    let c = omt_config();
    let pio = to_omt(&c, &osm(7, &[("amenity", "bus_stop")], Some("Point"))).unwrap();
    assert_eq!(pio.osm_id, 7);
    assert_eq!(pio.osm_type, s("node"));
    assert_eq!(pio.geometry, point());
    assert_eq!(pio.properties, vec![(s("class"), PropertyValue::Text(s("bus")))]);
}

#[test]
fn to_omt_refuses() {
    let c = omt_config();
    assert_eq!(to_omt(&c, &osm(1, &[("amenity", "bus_stop")], None)), None);
    assert_eq!(to_omt(&c, &osm(1, &[("amenity", "bus_stop")], Some("MultiPoint"))), None);
    assert_eq!(to_omt(&c, &osm(1, &[("amenity", "bench")], Some("Point"))), None);
    assert_eq!(to_omt(&c, &osm(1, &[("railway", "halt")], Some("Point"))), None);
}

#[test]
fn to_omt_last_rule_set_wins() {
    let c = omt_config();
    let both = osm(2, &[("amenity", "bus_station"), ("railway", "halt"), ("railway", "station")], Some("Point"));
    let pio = to_omt(&c, &both).unwrap();
    assert_eq!(pio.properties, vec![(s("class"), PropertyValue::Text(s("railway")))]);
}

#[test]
fn apply_keeps_classified_in_order() {
    let c = omt_config();
    let data = OsmCollection {
        objects: vec![
            osm(1, &[("amenity", "bench")], Some("Point")),
            osm(2, &[("amenity", "bus_station")], Some("Point")),
            osm(3, &[("amenity", "bus_stop")], Some("Polygon")),
        ],
    };
    let pc = apply(&c, &data);
    assert_eq!(pc.layer, s("transport"));
    let ids: Vec<i64> = pc.objects.iter().map(|p| p.osm_id).collect();
    assert_eq!(ids, vec![2, 3]);
}

#[test]
fn geojson_of_layer() {
    let pc = PioCollection {
        layer: s("transport"),
        objects: vec![Pio {
            osm_id: 5,
            osm_type: s("node"),
            geometry: point(),
            properties: vec![
                (s("class"), PropertyValue::Text(s("bus"))),
                (s("level"), PropertyValue::Integer(-1)),
            ],
        }],
    };
    let file = write_geojson(&pc);
    assert_eq!(file.file_name, s("transport.geojson"));
    assert_eq!(file.features.len(), 1);
    assert_eq!(file.features[0].id, 5);
    assert_eq!(file.features[0].geometry, point());
    assert_eq!(
        file.features[0].properties,
        vec![
            (s("osm_type"), PropertyValue::Text(s("node"))),
            (s("class"), PropertyValue::Text(s("bus"))),
            (s("level"), PropertyValue::Integer(-1)),
        ]
    );
}

fn run(events: &[JobEvent]) -> Vec<JobAction> {
    let (mut state, first) = job_start();
    let mut actions = vec![first];
    for e in events {
        let (next, action) = job_step(state, *e);
        state = next;
        actions.push(action);
    }
    assert_eq!(state, JobState::Done);
    actions
}

#[test]
fn job_succeeds_after_nine_rounds() {
    let mut events = vec![JobEvent::ClientReady, JobEvent::TableCreated];
    for i in 1..10 {
        events.push(JobEvent::ClientReady);
        events.push(JobEvent::Prepared);
        events.push(JobEvent::Answered(i + 1));
    }
    let actions = run(&events);
    assert_eq!(actions.len(), 30);
    let queries: Vec<i32> = actions
        .iter()
        .filter_map(|a| if let JobAction::Query(i) = a { Some(*i) } else { None })
        .collect();
    assert_eq!(queries, (1..10).collect::<Vec<i32>>());
    assert_eq!(actions.last(), Some(&JobAction::Succeed));
}

#[test]
fn job_skips_failed_rounds() {
    let mut events = vec![JobEvent::ClientReady, JobEvent::TableCreated];
    for _ in 1..10 {
        events.push(JobEvent::ClientFailed);
    }
    assert_eq!(run(&events).last(), Some(&JobAction::Succeed));
    let mut events = vec![JobEvent::ClientReady, JobEvent::TableCreated];
    for _ in 1..10 {
        events.push(JobEvent::ClientReady);
        events.push(JobEvent::PrepareFailed);
    }
    assert_eq!(run(&events).last(), Some(&JobAction::Succeed));
}

#[test]
fn job_fails_before_table() {
    assert_eq!(run(&[JobEvent::ClientFailed]), vec![JobAction::GetClient, JobAction::Fail]);
    assert_eq!(
        run(&[JobEvent::ClientReady, JobEvent::TableFailed]),
        vec![JobAction::GetClient, JobAction::CreateTable, JobAction::Fail]
    );
}

#[test]
fn geojson_properties_override_osm_type() {
    let pc = PioCollection {
        layer: s("x"),
        objects: vec![Pio {
            osm_id: 1,
            osm_type: s("node"),
            geometry: point(),
            properties: vec![(s("osm_type"), PropertyValue::Boolean(true))],
        }],
    };
    let file = write_geojson(&pc);
    let last = file.features[0].properties.iter().rev().find(|(k, _)| k == "osm_type").unwrap();
    assert_eq!(last.1, PropertyValue::Boolean(true));
    assert_eq!(file.file_name, s("x.geojson"));
}
