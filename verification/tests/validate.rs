use osm2pio::utils::cli::Cli;
use osm2pio::utils::config::Mapping;
use osm2pio::utils::validate::{
    is_float, parse_bool, parse_i32, try_mapping, try_parse, validate_args, ArgsError, FieldType,
};

fn s(t: &str) -> String {
    t.to_string()
}

const SAMPLES: &[&str] = &[
    "", "0", "-0", "+0", "42", "-7", "+5", "007", "2147483647", "2147483648", "-2147483648",
    "-2147483649", "99999999999999999999", "-", "+", "+-1", "1a", " 1", "1 ", "١٢", "1.5", "1.",
    ".5", ".", "-.5", "+1.e3", "1e10", "1E-3", "1e+7", "e5", "1e", "1e+", "1.2.3", "1e5e5",
    "inf", "INF", "-Infinity", "+infinity", "infinit", "NaN", "nan1", "-nan", "true", "false",
    "True", "TRUE", "yes", "bus_stop", "name:en", "0x10", "1_000", "١", "∞", "0.0e0",
    "+.5", "-.", "1e-", "E5", "1E5", "1.e", ".e1", "0.", "-+1", "infinityx", "INFinity", "+nan",
    "1e0001", "00.00", "--1", "1..2", "1e5.0", "nAn", "Inf", "-0.0", "12345678901234567890e-5",
];

#[test]
fn parse_i32_agrees_with_std() {
    for t in SAMPLES {
        assert_eq!(parse_i32(t), t.parse::<i32>().ok(), "text {:?}", t);
    }
}

#[test]
fn is_float_agrees_with_std() {
    for t in SAMPLES {
        assert_eq!(is_float(t), t.parse::<f64>().is_ok(), "text {:?}", t);
    }
}

#[test]
fn parse_bool_agrees_with_std() {
    for t in SAMPLES {
        assert_eq!(parse_bool(t), t.parse::<bool>().ok(), "text {:?}", t);
    }
}

#[test]
fn try_parse_order() {
    assert_eq!(try_parse("12"), FieldType::Integer(12));
    assert_eq!(try_parse("-2147483648"), FieldType::Integer(i32::MIN));
    assert_eq!(try_parse("2147483648"), FieldType::Float(s("2147483648")));
    assert_eq!(try_parse("3.25"), FieldType::Float(s("3.25")));
    assert_eq!(try_parse("NaN"), FieldType::Float(s("NaN")));
    assert_eq!(try_parse("true"), FieldType::Boolean(true));
    assert_eq!(try_parse("false"), FieldType::Boolean(false));
    assert_eq!(try_parse("True"), FieldType::Text(s("True")));
    assert_eq!(try_parse(""), FieldType::Text(s("")));
    assert_eq!(try_parse("bus stop"), FieldType::Text(s("bus stop")));
}

#[test]
fn try_mapping_uses_first_matching_entry() {
    let mapping = Some(vec![
        Mapping { key: s("yes"), value: s("true") },
        Mapping { key: s("yes"), value: s("1") },
        Mapping { key: s("no"), value: s("false") },
    ]);
    assert_eq!(try_mapping("yes", &mapping), FieldType::Boolean(true));
    assert_eq!(try_mapping("no", &mapping), FieldType::Boolean(false));
    assert_eq!(try_mapping("5", &mapping), FieldType::Integer(5));
    assert_eq!(try_mapping("maybe", &mapping), FieldType::Text(s("maybe")));
    assert_eq!(try_mapping("yes", &None), FieldType::Text(s("yes")));
}

fn cli(uri: &str, osmpbf: &str, yamls: &str) -> Cli {
    Cli { uri: s(uri), osmpbf: s(osmpbf), schema_yamls: s(yamls) }
}

#[test]
fn validate_args_each_outcome() {
    let good = cli("postgres://localhost/osm", "melilla.osm.pbf", "schemas");
    assert_eq!(validate_args(&good, true, Some(3)), Ok(()));
    assert_eq!(validate_args(&cli("", "a", "b"), true, Some(3)), Err(ArgsError::MissingArgument));
    assert_eq!(validate_args(&cli("a", "", "b"), true, Some(3)), Err(ArgsError::MissingArgument));
    assert_eq!(validate_args(&cli("a", "b", ""), true, Some(3)), Err(ArgsError::MissingArgument));
    assert_eq!(validate_args(&good, false, Some(3)), Err(ArgsError::OsmpbfNotFound));
    assert_eq!(validate_args(&good, true, None), Err(ArgsError::YamlsDirNotFound));
    assert_eq!(validate_args(&good, true, Some(0)), Err(ArgsError::YamlsDirEmpty));
    assert_eq!(validate_args(&good, false, None), Err(ArgsError::OsmpbfNotFound));
}

#[test]
fn try_parse_reads_back_integers_and_booleans() {
    for n in [0, 1, -1, 9, 10, -10, 42, 1000, -2_147_483_648, 2_147_483_647, 123_456_789] {
        assert_eq!(try_parse(&n.to_string()), FieldType::Integer(n));
    }
    for b in [true, false] {
        assert_eq!(try_parse(&b.to_string()), FieldType::Boolean(b));
    }
}
