//! Nodes of an OSM PBF file kept with their tags as `key: value` texts, and
//! the GeoJSON features made of them, whose properties split those texts
//! back into keys and values.

use vstd::prelude::*;
use crate::osmpbf::{Element, NodeData};
use crate::utils::geo::{Geometry, Point};

verus! {

/// A node kept with its id, its tags as `key: value` texts and its point.
#[derive(Debug, Clone, PartialEq)]
pub struct Osm {
    pub id: i64,
    pub properties: Vec<String>,
    pub geometry: Geometry,
}

/// The separator `: ` between a tag's key and value.
pub open spec fn separator() -> Seq<char> {
    seq![':', ' ']
}

/// The text `key: value`.
pub open spec fn property_text(key: Seq<char>, value: Seq<char>) -> Seq<char> {
    key + separator() + value
}

/// A separator starts at position `i` of `s`.
pub open spec fn is_sep_at(s: Seq<char>, i: int) -> bool {
    0 <= i && i + 1 < s.len() && s[i] == ':' && s[i + 1] == ' '
}

/// `s` holds no separator.
pub open spec fn no_separator(s: Seq<char>) -> bool {
    forall|i: int| !#[trigger] is_sep_at(s, i)
}

/// The position of the first separator that starts at or after `from`; the
/// length of `s` where there is none.
pub open spec fn first_sep_from(s: Seq<char>, from: int) -> int
    decreases s.len() - from,
{
    if from + 1 >= s.len() {
        s.len() as int
    } else if is_sep_at(s, from) {
        from
    } else {
        first_sep_from(s, from + 1)
    }
}

/// `s` holds a separator.
pub open spec fn has_separator(s: Seq<char>) -> bool {
    first_sep_from(s, 0) < s.len()
}

/// The first piece of `s` split at its separators: the text before the
/// first one.
pub open spec fn split_key(s: Seq<char>) -> Seq<char> {
    s.take(first_sep_from(s, 0))
}

/// The second piece of `s` split at its separators: the text after the first
/// one, up to the next one or the end.
pub open spec fn split_value(s: Seq<char>) -> Seq<char> {
    let i0 = first_sep_from(s, 0);
    s.subrange(i0 + 2, first_sep_from(s, i0 + 2))
}

/// The first separator at or after `from` is the first position from there
/// where one starts.
pub proof fn lemma_first_sep(s: Seq<char>, from: int)
    requires
        0 <= from <= s.len(),
    ensures
        from <= first_sep_from(s, from) <= s.len(),
        first_sep_from(s, from) < s.len() ==> is_sep_at(s, first_sep_from(s, from)),
        forall|j: int| from <= j < first_sep_from(s, from) ==> !#[trigger] is_sep_at(s, j),
    decreases s.len() - from,
{
    if from + 1 < s.len() && !is_sep_at(s, from) {
        lemma_first_sep(s, from + 1);
    }
}

/// Where no separator starts in `from..t` and one starts at `t`, `t` is the
/// first from `from`; where none starts from `from` on, the first is the
/// length.
pub proof fn lemma_first_sep_is(s: Seq<char>, from: int, t: int)
    requires
        0 <= from <= t <= s.len(),
        forall|j: int| from <= j < t ==> !#[trigger] is_sep_at(s, j),
        t == s.len() || is_sep_at(s, t),
    ensures
        first_sep_from(s, from) == t,
{
    lemma_first_sep(s, from);
    let r = first_sep_from(s, from);
    if r < t {
        assert(is_sep_at(s, r));
    } else if r > t {
        assert(!is_sep_at(s, t));
    }
}

/// Splitting `key: value` gives back the key and the value, where neither
/// holds a separator: the properties of a feature written from a node kept by
/// `read_osmpbf` are the node's tags.
pub proof fn law_split_format_round_trip(key: Seq<char>, value: Seq<char>)
    requires
        no_separator(key),
        no_separator(value),
    ensures
        has_separator(property_text(key, value)),
        split_key(property_text(key, value)) == key,
        split_value(property_text(key, value)) == value,
{
    let s = property_text(key, value);
    let k = key.len() as int;
    assert forall|j: int| 0 <= j < k implies !#[trigger] is_sep_at(s, j) by {
        if j + 1 < k {
            assert(!is_sep_at(key, j));
            assert(s[j] == key[j] && s[j + 1] == key[j + 1]);
        } else {
            assert(s[j + 1] == ':');
        }
    }
    assert(s[k] == ':' && s[k + 1] == ' ');
    assert(is_sep_at(s, k));
    lemma_first_sep_is(s, 0, k);
    assert forall|j: int| k + 2 <= j < s.len() implies !#[trigger] is_sep_at(s, j) by {
        if j + 1 < s.len() {
            assert(!is_sep_at(value, j - k - 2));
            assert(s[j] == value[j - k - 2] && s[j + 1] == value[j - k - 1]);
        }
    }
    lemma_first_sep_is(s, k + 2, s.len() as int);
    assert(s.take(k) =~= key);
    assert(s.subrange(k + 2, s.len() as int) =~= value);
}

/// The text `key: value`.
pub fn format_property(key: &str, value: &str) -> (r: String)
    ensures
        r@ == property_text(key@, value@),
{
    let mut text = String::from_str(key);
    proof {
        reveal_strlit(": ");
        assert(": "@ =~= separator());
    }
    text.append(": ");
    text.append(value);
    text
}

/// The position of the first separator of `s` at or after `from`; the length
/// where there is none.
fn find_separator(s: &str, from: usize) -> (r: usize)
    requires
        from <= s@.len(),
    ensures
        r == first_sep_from(s@, from as int),
{
    let n = s.unicode_len();
    if n == 0 {
        return 0;
    }
    let mut i = from;
    while i < n - 1
        invariant
            n == s@.len(),
            n > 0,
            from <= i <= n,
            first_sep_from(s@, from as int) == first_sep_from(s@, i as int),
        decreases n - i,
    {
        if s.get_char(i) == ':' && s.get_char(i + 1) == ' ' {
            return i;
        }
        i = i + 1;
    }
    n
}

/// The key and the value of a `key: value` text, as splitting it at `: `
/// and taking the first two pieces gives them.
pub fn split_property(prop: &str) -> (r: (String, String))
    requires
        has_separator(prop@),
    ensures
        r.0@ == split_key(prop@),
        r.1@ == split_value(prop@),
{
    let _n = prop.unicode_len();
    proof {
        lemma_first_sep(prop@, 0);
    }
    let i0 = find_separator(prop, 0);
    proof {
        lemma_first_sep(prop@, i0 + 2);
    }
    let i1 = find_separator(prop, i0 + 2);
    let key = String::from_str(prop.substring_char(0, i0));
    let value = String::from_str(prop.substring_char(i0 + 2, i1));
    assert(prop@.subrange(0, i0 as int) =~= prop@.take(i0 as int));
    (key, value)
}

/// The point at a node's position.
pub open spec fn node_point(n: NodeData) -> Geometry {
    Geometry::Point(Point { nano_lon: n.nano_lon, nano_lat: n.nano_lat })
}

/// `o` is what `read_osmpbf` keeps of node `n`: its id, each tag as a
/// `key: value` text in order, and its point.
pub open spec fn is_osm_of_node(o: Osm, n: NodeData) -> bool {
    &&& o.id == n.id
    &&& o.geometry == node_point(n)
    &&& o.properties@.len() == n.tags@.len()
    &&& forall|i: int|
        0 <= i < n.tags@.len() ==> #[trigger] o.properties@[i]@ == property_text(
            n.tags@[i].0@,
            n.tags@[i].1@,
        )
}

/// The nodes and dense nodes among the elements, in order.
pub open spec fn nodes_of(elements: Seq<Element>) -> Seq<NodeData>
    decreases elements.len(),
{
    if elements.len() == 0 {
        Seq::empty()
    } else {
        let before = nodes_of(elements.drop_last());
        match elements.last() {
            Element::Node(n) => before.push(n),
            Element::DenseNode(n) => before.push(n),
            _ => before,
        }
    }
}

/// What is kept of a node.
fn osm_of_node(n: &NodeData) -> (r: Osm)
    ensures
        is_osm_of_node(r, *n),
{
    let mut properties: Vec<String> = Vec::new();
    let mut i: usize = 0;
    while i < n.tags.len()
        invariant
            i <= n.tags@.len(),
            properties@.len() == i,
            forall|j: int|
                0 <= j < i ==> #[trigger] properties@[j]@ == property_text(
                    n.tags@[j].0@,
                    n.tags@[j].1@,
                ),
        decreases n.tags@.len() - i,
    {
        properties.push(format_property(n.tags[i].0.as_str(), n.tags[i].1.as_str()));
        i = i + 1;
    }
    Osm {
        id: n.id,
        properties,
        geometry: Geometry::Point(Point { nano_lon: n.nano_lon, nano_lat: n.nano_lat }),
    }
}

/// Keeps the nodes and dense nodes of the elements read, in order, each with
/// its id, its tags as `key: value` texts and its point; ways and relations
/// are passed over.
pub fn read_osmpbf(elements: &Vec<Element>) -> (r: Vec<Osm>)
    ensures
        r@.len() == nodes_of(elements@).len(),
        forall|j: int|
            0 <= j < r@.len() ==> is_osm_of_node(#[trigger] r@[j], nodes_of(elements@)[j]),
{
    let mut osm_vec: Vec<Osm> = Vec::new();
    let mut i: usize = 0;
    while i < elements.len()
        invariant
            i <= elements@.len(),
            osm_vec@.len() == nodes_of(elements@.take(i as int)).len(),
            forall|j: int|
                0 <= j < osm_vec@.len() ==> is_osm_of_node(
                    #[trigger] osm_vec@[j],
                    nodes_of(elements@.take(i as int))[j],
                ),
        decreases elements@.len() - i,
    {
        assert(elements@.take(i + 1).drop_last() =~= elements@.take(i as int));
        assert(elements@.take(i + 1).last() == elements@[i as int]);
        let ghost before = osm_vec@;
        match &elements[i] {
            Element::Node(n) | Element::DenseNode(n) => {
                osm_vec.push(osm_of_node(n));
                assert forall|j: int| 0 <= j < osm_vec@.len() implies is_osm_of_node(
                    #[trigger] osm_vec@[j],
                    nodes_of(elements@.take(i + 1))[j],
                ) by {
                    if j < before.len() {
                        assert(osm_vec@[j] == before[j]);
                    }
                }
            },
            _ => {},
        }
        i = i + 1;
    }
    assert(elements@.take(i as int) =~= elements@);
    osm_vec
}

/// A GeoJSON feature: its id and its properties in order.
#[derive(Debug, Clone, PartialEq)]
pub struct Feature {
    pub id: i64,
    pub properties: Vec<(String, String)>,
}

/// `f` is the feature written for `o`: its id, and each property text split
/// into key and value, in order.
pub open spec fn is_feature_of(f: Feature, o: Osm) -> bool {
    &&& f.id == o.id
    &&& f.properties@.len() == o.properties@.len()
    &&& forall|i: int|
        0 <= i < o.properties@.len() ==> {
            &&& (#[trigger] f.properties@[i]).0@ == split_key(o.properties@[i]@)
            &&& f.properties@[i].1@ == split_value(o.properties@[i]@)
        }
}

/// Every property text of every object holds a separator.
pub open spec fn all_have_separator(objects: Seq<Osm>) -> bool {
    forall|j: int, i: int|
        0 <= j < objects.len() && 0 <= i < objects[j].properties@.len() ==> has_separator(
            #[trigger] objects[j].properties@[i]@,
        )
}

/// The feature written for an object.
fn feature_of(object: &Osm) -> (r: Feature)
    requires
        forall|i: int|
            0 <= i < object.properties@.len() ==> has_separator(#[trigger] object.properties@[i]@),
    ensures
        is_feature_of(r, *object),
{
    let mut properties: Vec<(String, String)> = Vec::new();
    let mut i: usize = 0;
    while i < object.properties.len()
        invariant
            forall|k: int|
                0 <= k < object.properties@.len() ==> has_separator(
                    #[trigger] object.properties@[k]@,
                ),
            i <= object.properties@.len(),
            properties@.len() == i,
            forall|k: int|
                0 <= k < i ==> {
                    &&& (#[trigger] properties@[k]).0@ == split_key(object.properties@[k]@)
                    &&& properties@[k].1@ == split_value(object.properties@[k]@)
                },
        decreases object.properties@.len() - i,
    {
        properties.push(split_property(object.properties[i].as_str()));
        i = i + 1;
    }
    Feature { id: object.id, properties }
}

/// The features written for the objects, in order: each with the object's id
/// and its `key: value` texts split back into keys and values.
pub fn write_geojson(objects: &Vec<Osm>) -> (r: Vec<Feature>)
    requires
        all_have_separator(objects@),
    ensures
        r@.len() == objects@.len(),
        forall|j: int| 0 <= j < r@.len() ==> is_feature_of(#[trigger] r@[j], objects@[j]),
{
    let mut features: Vec<Feature> = Vec::new();
    let mut j: usize = 0;
    while j < objects.len()
        invariant
            all_have_separator(objects@),
            j <= objects@.len(),
            features@.len() == j,
            forall|k: int| 0 <= k < j ==> is_feature_of(#[trigger] features@[k], objects@[k]),
        decreases objects@.len() - j,
    {
        assert forall|i: int| 0 <= i < objects@[j as int].properties@.len() implies has_separator(
            #[trigger] objects@[j as int].properties@[i]@,
        ) by {}
        features.push(feature_of(&objects[j]));
        j = j + 1;
    }
    features
}

/// A node's tags, none of whose keys and values holds a separator, come back
/// as the properties of the feature written for what `read_osmpbf` keeps of
/// it.
pub proof fn law_feature_properties_are_tags(n: NodeData, o: Osm, f: Feature)
    requires
        forall|i: int|
            0 <= i < n.tags@.len() ==> no_separator((#[trigger] n.tags@[i]).0@) && no_separator(
                n.tags@[i].1@,
            ),
        is_osm_of_node(o, n),
        is_feature_of(f, o),
    ensures
        f.id == n.id,
        f.properties@.len() == n.tags@.len(),
        forall|i: int|
            0 <= i < n.tags@.len() ==> (#[trigger] f.properties@[i]).0@ == n.tags@[i].0@
                && f.properties@[i].1@ == n.tags@[i].1@,
{
    assert forall|i: int| 0 <= i < n.tags@.len() implies (#[trigger] f.properties@[i]).0@
        == n.tags@[i].0@ && f.properties@[i].1@ == n.tags@[i].1@ by {
        law_split_format_round_trip(n.tags@[i].0@, n.tags@[i].1@);
        assert(o.properties@[i]@ == property_text(n.tags@[i].0@, n.tags@[i].1@));
    }
}

} // verus!
