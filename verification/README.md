# osm2pio

Loads the points of interest of an OpenStreetMap PBF file into PostgreSQL,
sorted by YAML schemas: each schema gives an element a class from its tags
and copies chosen tags into typed properties.

- `src/` is the library, verified with Verus: tag lookup, class rules,
  typing of tag values (as `str::parse` does for `i32`, `f64` and `bool`),
  argument checks, the rows and GeoJSON features made of elements, the
  OpenMapTiles-style layer sorting, the WKB column writer and the decisions
  of the pooled database job.
- `app/` is the program around it: command line, files, the OSM PBF reader,
  PostgreSQL connections, YAML and JSON, and floating-point coordinates.
- `tests/` runs the library on concrete values.

The properties of an element, a JSON object in the database, are held in
`src/` as a list of typed entries in which a later key replaces an earlier
one, the way inserting into a JSON object does. serde_json's `Map` is built
from it in `app/`: its values include floating-point numbers, which `src/`
does not hold, so neither the map nor its insertion can stand there.
