//! The properties of an element: its class and the fields that the schemas
//! copy from its tags, typed.

use vstd::prelude::*;
use crate::osmpbf::{NodeData, RelationData, WayData};
use crate::utils::assoc::{
    entries_view, find_last, last_wins, lemma_last_wins_push,
};
use crate::utils::config::{contains_text, values_contain, Config, Field, Kvat};
use crate::utils::validate::{spec_try_mapping, try_mapping, FieldType, FieldValue};

verus! {

/// The tags of an element, looked up by key; a later tag with the same key
/// replaces an earlier one.
pub struct Tags {
    entries: Vec<(String, String)>,
}

impl View for Tags {
    type V = Map<Seq<char>, Seq<char>>;

    closed spec fn view(&self) -> Map<Seq<char>, Seq<char>> {
        last_wins(entries_view(self.entries@))
    }
}

impl Tags {
    /// No tags.
    pub fn new() -> (t: Tags)
        ensures
            t@ == Map::<Seq<char>, Seq<char>>::empty(),
    {
        Tags { entries: Vec::new() }
    }

    /// Binds `key` to `value`.
    pub fn insert(&mut self, key: &str, value: &str)
        ensures
            final(self)@ == old(self)@.insert(key@, value@),
    {
        proof {
            lemma_last_wins_push(entries_view(self.entries@), key@, value@);
        }
        self.entries.push((key.to_owned(), value.to_owned()));
        assert(entries_view(self.entries@) =~= entries_view(old(self).entries@).push((key@, value@)));
    }

    /// The value bound to `key`.
    pub fn get(&self, key: &str) -> (r: Option<&String>)
        ensures
            match r {
                Some(v) => self@.contains_key(key@) && self@[key@] == v@,
                None => !self@.contains_key(key@),
            },
    {
        match find_last(&self.entries, key) {
            Some(i) => Some(&self.entries[i].1),
            None => None,
        }
    }

    /// The tags of an element, inserted in order.
    pub fn from_pairs(pairs: &Vec<(String, String)>) -> (t: Tags)
        ensures
            t@ == last_wins(entries_view(pairs@)),
    {
        let mut t = Tags::new();
        let mut i: usize = 0;
        while i < pairs.len()
            invariant
                i <= pairs@.len(),
                t@ == last_wins(entries_view(pairs@.take(i as int))),
            decreases pairs@.len() - i,
        {
            proof {
                assert(entries_view(pairs@.take(i + 1)) =~= entries_view(pairs@.take(i as int)).push(
                    (pairs@[i as int].0@, pairs@[i as int].1@),
                ));
                lemma_last_wins_push(
                    entries_view(pairs@.take(i as int)),
                    pairs@[i as int].0@,
                    pairs@[i as int].1@,
                );
            }
            t.insert(pairs[i].0.as_str(), pairs[i].1.as_str());
            i = i + 1;
        }
        assert(pairs@.take(pairs@.len() as int) =~= pairs@);
        t
    }
}

/// The properties of an element as a JSON object: a later entry with the same
/// key replaces an earlier one, as a JSON object's insertion does.
pub struct Properties {
    pub jsonb: Vec<(String, FieldType)>,
}

impl View for Properties {
    type V = Map<Seq<char>, FieldValue>;

    open spec fn view(&self) -> Map<Seq<char>, FieldValue> {
        last_wins(entries_view(self.jsonb@))
    }
}

impl Properties {
    /// The empty object.
    pub fn new() -> (p: Properties)
        ensures
            p@ == Map::<Seq<char>, FieldValue>::empty(),
            p.jsonb@.len() == 0,
    {
        Properties { jsonb: Vec::new() }
    }

    /// Sets `key` to `value`.
    pub fn add(&mut self, key: &str, value: FieldType)
        ensures
            final(self)@ == old(self)@.insert(key@, value@),
    {
        proof {
            lemma_last_wins_push(entries_view(self.jsonb@), key@, value@);
        }
        self.jsonb.push((key.to_owned(), value));
        assert(entries_view(self.jsonb@) =~= entries_view(old(self).jsonb@).push((key@, value@)));
    }

    /// The value of `key`.
    pub fn get(&self, key: &str) -> (r: Option<&FieldType>)
        ensures
            match r {
                Some(v) => self@.contains_key(key@) && self@[key@] == v@,
                None => !self@.contains_key(key@),
            },
    {
        match find_last(&self.jsonb, key) {
            Some(i) => Some(&self.jsonb[i].1),
            None => None,
        }
    }
}

/// An element whose tags are sorted.
pub enum OsmType<'a> {
    Node(&'a NodeData),
    DenseNode(&'a NodeData),
    Way(&'a WayData),
    Relation(&'a RelationData),
}

/// The tags of an element, in file order.
pub open spec fn element_tags(element: OsmType) -> Seq<(String, String)> {
    match element {
        OsmType::Node(n) => n.tags@,
        OsmType::DenseNode(n) => n.tags@,
        OsmType::Way(w) => w.tags@,
        OsmType::Relation(r) => r.tags@,
    }
}

/// The key under which the class is stored: `class`.
pub open spec fn class_key() -> Seq<char> {
    seq!['c', 'l', 'a', 's', 's']
}

/// Tag `key` is present with one of `values`.
pub open spec fn has_tag_value(
    tags: Map<Seq<char>, Seq<char>>,
    key: Seq<char>,
    values: Seq<String>,
) -> bool {
    tags.contains_key(key) && contains_text(values, tags[key])
}

/// A class rule applies: its key has one of its values, and where it has an
/// `and` list, at least one condition of that list holds.
pub open spec fn kvat_matches(k: Kvat, tags: Map<Seq<char>, Seq<char>>) -> bool {
    &&& has_tag_value(tags, k.key@, k.values@)
    &&& match k.and {
        None => true,
        Some(and) => exists|j: int|
            #![trigger and@[j]]
            0 <= j < and@.len() && has_tag_value(tags, and@[j].key@, and@[j].values@),
    }
}

/// The class given by the first rule that applies.
pub open spec fn first_class(kvats: Seq<Kvat>, tags: Map<Seq<char>, Seq<char>>) -> Option<
    Seq<char>,
>
    decreases kvats.len(),
{
    if kvats.len() == 0 {
        None
    } else if kvat_matches(kvats[0], tags) {
        Some(kvats[0].then_class@)
    } else {
        first_class(kvats.drop_first(), tags)
    }
}

/// The class that a schema gives an element: that of its first rule that
/// applies, none where it has no rules or none applies.
pub open spec fn spec_sort_class(config: Config, tags: Map<Seq<char>, Seq<char>>) -> Option<
    Seq<char>,
> {
    match config.class {
        Some(c) => first_class(c@, tags),
        None => None,
    }
}

/// Why no class was found.
#[derive(Debug, Clone, Copy, PartialEq, Eq)]
pub enum SortClassError {
    /// No rule of the schema applies to the tags.
    NoMatchingClass,
}

/// Whether tag `key` is present with one of `values`.
fn tag_has_value(tags: &Tags, key: &String, values: &Vec<String>) -> (r: bool)
    ensures
        r == has_tag_value(tags@, key@, values@),
{
    match tags.get(key.as_str()) {
        Some(v) => values_contain(values, v.as_str()),
        None => false,
    }
}

/// Whether a class rule applies to the tags.
fn kvat_applies(kvat: &Kvat, tags: &Tags) -> (r: bool)
    ensures
        r == kvat_matches(*kvat, tags@),
{
    if !tag_has_value(tags, &kvat.key, &kvat.values) {
        return false;
    }
    match &kvat.and {
        None => true,
        Some(and) => {
            let mut j: usize = 0;
            while j < and.len()
                invariant
                    kvat.and == Some(*and),
                    has_tag_value(tags@, kvat.key@, kvat.values@),
                    j <= and@.len(),
                    forall|k: int|
                        0 <= k < j ==> !has_tag_value(tags@, #[trigger] and@[k].key@, and@[k].values@),
                decreases and@.len() - j,
            {
                if tag_has_value(tags, &and[j].key, &and[j].values) {
                    proof {
                        let a = kvat.and->Some_0;
                        assert(a@[j as int] == and@[j as int]);
                        assert(has_tag_value(tags@, a@[j as int].key@, a@[j as int].values@));
                    }
                    return true;
                }
                j = j + 1;
            }
            false
        },
    }
}

/// The class that a schema gives the tags: the pair (`class`, class) of the
/// first rule that applies.
pub fn sort_class(config: &Config, tags: &Tags) -> (r: Result<(String, String), SortClassError>)
    ensures
        r is Ok <==> spec_sort_class(*config, tags@) is Some,
        r matches Ok(p) ==> p.0@ == class_key() && Some(p.1@) == spec_sort_class(*config, tags@),
{
    if let Some(classes) = &config.class {
        let mut i: usize = 0;
        assert(classes@.skip(0) =~= classes@);
        while i < classes.len()
            invariant
                config.class == Some(*classes),
                i <= classes@.len(),
                first_class(classes@, tags@) == first_class(classes@.skip(i as int), tags@),
            decreases classes@.len() - i,
        {
            assert(classes@.skip(i as int).drop_first() =~= classes@.skip(i + 1));
            assert(classes@.skip(i as int)[0] == classes@[i as int]);
            if kvat_applies(&classes[i], tags) {
                let key = String::from_str("class");
                proof {
                    reveal_strlit("class");
                    assert("class"@ =~= class_key());
                }
                return Ok((key, classes[i].then_class.clone()));
            }
            i = i + 1;
        }
        assert(classes@.skip(i as int).len() == 0);
    }
    Err(SortClassError::NoMatchingClass)
}

/// The key a field is stored under: its new name where it has one, else its
/// tag's name.
pub open spec fn field_key(f: Field) -> Seq<char> {
    match f.rename_to {
        Some(r) => r@,
        None => f.name@,
    }
}

/// The properties after the fields of a schema, in order, are copied from the
/// tags that are present.
pub open spec fn apply_fields(
    props: Map<Seq<char>, FieldValue>,
    fields: Seq<Field>,
    tags: Map<Seq<char>, Seq<char>>,
) -> Map<Seq<char>, FieldValue>
    decreases fields.len(),
{
    if fields.len() == 0 {
        props
    } else {
        let f = fields[0];
        let next = if tags.contains_key(f.name@) {
            props.insert(field_key(f), spec_try_mapping(tags[f.name@], f.mapping))
        } else {
            props
        };
        apply_fields(next, fields.drop_first(), tags)
    }
}

/// The properties after one schema: its class, where it gives one, then its
/// fields.
pub open spec fn apply_config(
    props: Map<Seq<char>, FieldValue>,
    config: Config,
    tags: Map<Seq<char>, Seq<char>>,
) -> Map<Seq<char>, FieldValue> {
    let with_class = match spec_sort_class(config, tags) {
        Some(t) => props.insert(class_key(), FieldValue::Text(t)),
        None => props,
    };
    apply_fields(with_class, config.fields@, tags)
}

/// The properties after the schemas, in order.
pub open spec fn apply_configs(
    props: Map<Seq<char>, FieldValue>,
    configs: Seq<Config>,
    tags: Map<Seq<char>, Seq<char>>,
) -> Map<Seq<char>, FieldValue>
    decreases configs.len(),
{
    if configs.len() == 0 {
        props
    } else {
        apply_configs(apply_config(props, configs[0], tags), configs.drop_first(), tags)
    }
}

/// The properties that the schemas give the tags, starting from none.
pub open spec fn spec_sort_fields(
    tags: Map<Seq<char>, Seq<char>>,
    configs: Seq<Config>,
) -> Map<Seq<char>, FieldValue> {
    apply_configs(Map::empty(), configs, tags)
}

/// Gives the tags their properties under each schema in turn: the class, then
/// each field whose tag is present, typed.
pub fn sort_fields(tags: &Tags, configs: &Vec<Config>) -> (r: Properties)
    ensures
        r@ == spec_sort_fields(tags@, configs@),
{
    let mut properties = Properties::new();
    let mut i: usize = 0;
    assert(configs@.skip(0) =~= configs@);
    while i < configs.len()
        invariant
            i <= configs@.len(),
            apply_configs(properties@, configs@.skip(i as int), tags@) == spec_sort_fields(
                tags@,
                configs@,
            ),
        decreases configs@.len() - i,
    {
        let config = &configs[i];
        assert(configs@.skip(i as int).drop_first() =~= configs@.skip(i + 1));
        assert(configs@.skip(i as int)[0] == configs@[i as int]);
        let ghost p0 = properties@;
        if let Ok((key, value)) = sort_class(config, tags) {
            properties.add(key.as_str(), FieldType::Text(value));
        }
        let ghost target = apply_config(p0, *config, tags@);
        let mut j: usize = 0;
        assert(config.fields@.skip(0) =~= config.fields@);
        while j < config.fields.len()
            invariant
                j <= config.fields@.len(),
                apply_fields(properties@, config.fields@.skip(j as int), tags@) == target,
            decreases config.fields@.len() - j,
        {
            let field = &config.fields[j];
            assert(config.fields@.skip(j as int).drop_first() =~= config.fields@.skip(j + 1));
            assert(config.fields@.skip(j as int)[0] == config.fields@[j as int]);
            if let Some(v) = tags.get(field.name.as_str()) {
                let typed = try_mapping(v.as_str(), &field.mapping);
                match &field.rename_to {
                    Some(rename_to) => properties.add(rename_to.as_str(), typed),
                    None => properties.add(field.name.as_str(), typed),
                }
            }
            j = j + 1;
        }
        assert(config.fields@.skip(j as int).len() == 0);
        i = i + 1;
    }
    assert(configs@.skip(i as int).len() == 0);
    properties
}

/// The properties of an element: its tags, a later one replacing an earlier
/// one with the same key, given their class and fields by the schemas.
pub fn sort_tags(element: OsmType, configs: &Vec<Config>) -> (r: Properties)
    ensures
        r@ == spec_sort_fields(last_wins(entries_view(element_tags(element))), configs@),
{
    let tags = match element {
        OsmType::Node(node) => Tags::from_pairs(&node.tags),
        OsmType::DenseNode(dense_node) => Tags::from_pairs(&dense_node.tags),
        OsmType::Way(way) => Tags::from_pairs(&way.tags),
        OsmType::Relation(relation) => Tags::from_pairs(&relation.tags),
    };
    sort_fields(&tags, configs)
}

/// The class a schema gives is that of a rule that applies, and no earlier
/// rule applies; where no rule applies there is no class.
pub proof fn law_sort_class_first_rule(kvats: Seq<Kvat>, tags: Map<Seq<char>, Seq<char>>)
    ensures
        match first_class(kvats, tags) {
            Some(t) => exists|i: int|
                0 <= i < kvats.len() && kvat_matches(#[trigger] kvats[i], tags) && kvats[i].then_class@
                    == t && forall|j: int| 0 <= j < i ==> !kvat_matches(#[trigger] kvats[j], tags),
            None => forall|i: int| 0 <= i < kvats.len() ==> !kvat_matches(#[trigger] kvats[i], tags),
        },
    decreases kvats.len(),
{
    if kvats.len() > 0 {
        let rest = kvats.drop_first();
        law_sort_class_first_rule(rest, tags);
        if kvat_matches(kvats[0], tags) {
            assert(kvat_matches(kvats[0], tags));
        } else {
            match first_class(rest, tags) {
                Some(t) => {
                    let i = choose|i: int|
                        0 <= i < rest.len() && kvat_matches(#[trigger] rest[i], tags)
                            && rest[i].then_class@ == t && forall|j: int|
                            0 <= j < i ==> !kvat_matches(#[trigger] rest[j], tags);
                    assert(kvats[i + 1] == rest[i]);
                    assert forall|j: int| 0 <= j < i + 1 implies !kvat_matches(
                        #[trigger] kvats[j],
                        tags,
                    ) by {
                        if j > 0 {
                            assert(kvats[j] == rest[j - 1]);
                        }
                    }
                },
                None => {
                    assert forall|i: int| 0 <= i < kvats.len() implies !kvat_matches(
                        #[trigger] kvats[i],
                        tags,
                    ) by {
                        if i > 0 {
                            assert(kvats[i] == rest[i - 1]);
                        }
                    }
                },
            }
        }
    }
}

/// A key the schemas can set: `class`, or the key of a field whose tag is
/// present.
pub open spec fn settable_key(
    configs: Seq<Config>,
    tags: Map<Seq<char>, Seq<char>>,
    k: Seq<char>,
) -> bool {
    k == class_key() || exists|c: int, f: int|
        0 <= c < configs.len() && 0 <= f < configs[c].fields@.len() && #[trigger] field_key(
            configs[c].fields@[f],
        ) == k && tags.contains_key(configs[c].fields@[f].name@)
}

proof fn lemma_apply_fields_keys(
    props: Map<Seq<char>, FieldValue>,
    fields: Seq<Field>,
    tags: Map<Seq<char>, Seq<char>>,
    k: Seq<char>,
)
    requires
        apply_fields(props, fields, tags).contains_key(k),
    ensures
        props.contains_key(k) || exists|f: int|
            0 <= f < fields.len() && #[trigger] field_key(fields[f]) == k && tags.contains_key(
                fields[f].name@,
            ),
    decreases fields.len(),
{
    if fields.len() > 0 {
        let f0 = fields[0];
        let next = if tags.contains_key(f0.name@) {
            props.insert(field_key(f0), spec_try_mapping(tags[f0.name@], f0.mapping))
        } else {
            props
        };
        let rest = fields.drop_first();
        lemma_apply_fields_keys(next, rest, tags, k);
        if !next.contains_key(k) {
            let f = choose|f: int|
                0 <= f < rest.len() && #[trigger] field_key(rest[f]) == k && tags.contains_key(
                    rest[f].name@,
                );
            assert(fields[f + 1] == rest[f]);
        } else if !props.contains_key(k) {
            assert(field_key(fields[0]) == k);
        }
    }
}

proof fn lemma_apply_configs_keys(
    props: Map<Seq<char>, FieldValue>,
    configs: Seq<Config>,
    tags: Map<Seq<char>, Seq<char>>,
    k: Seq<char>,
)
    requires
        apply_configs(props, configs, tags).contains_key(k),
    ensures
        props.contains_key(k) || settable_key(configs, tags, k),
    decreases configs.len(),
{
    if configs.len() > 0 {
        let c0 = configs[0];
        let rest = configs.drop_first();
        let after = apply_config(props, c0, tags);
        lemma_apply_configs_keys(after, rest, tags, k);
        if !after.contains_key(k) {
            if k != class_key() {
                let (c, f) = choose|c: int, f: int|
                    0 <= c < rest.len() && 0 <= f < rest[c].fields@.len() && #[trigger] field_key(
                        rest[c].fields@[f],
                    ) == k && tags.contains_key(rest[c].fields@[f].name@);
                assert(configs[c + 1] == rest[c]);
                assert(field_key(configs[c + 1].fields@[f]) == k);
            }
        } else {
            let with_class = match spec_sort_class(c0, tags) {
                Some(t) => props.insert(class_key(), FieldValue::Text(t)),
                None => props,
            };
            lemma_apply_fields_keys(with_class, c0.fields@, tags, k);
            if !with_class.contains_key(k) && k != class_key() {
                let f = choose|f: int|
                    0 <= f < c0.fields@.len() && #[trigger] field_key(c0.fields@[f]) == k
                        && tags.contains_key(c0.fields@[f].name@);
                assert(configs[0] == c0);
                assert(field_key(configs[0].fields@[f]) == k);
            }
        }
    }
}

/// The properties hold no key but `class` and the keys of fields whose tags
/// are present: a tag that no schema names never reaches them.
pub proof fn law_sort_fields_keys(tags: Map<Seq<char>, Seq<char>>, configs: Seq<Config>, k: Seq<char>)
    requires
        spec_sort_fields(tags, configs).contains_key(k),
    ensures
        settable_key(configs, tags, k),
{
    lemma_apply_configs_keys(Map::empty(), configs, tags, k);
}


proof fn lemma_apply_fields_mono(
    props: Map<Seq<char>, FieldValue>,
    fields: Seq<Field>,
    tags: Map<Seq<char>, Seq<char>>,
    k: Seq<char>,
)
    requires
        props.contains_key(k),
    ensures
        apply_fields(props, fields, tags).contains_key(k),
    decreases fields.len(),
{
    if fields.len() > 0 {
        let f0 = fields[0];
        let next = if tags.contains_key(f0.name@) {
            props.insert(field_key(f0), spec_try_mapping(tags[f0.name@], f0.mapping))
        } else {
            props
        };
        lemma_apply_fields_mono(next, fields.drop_first(), tags, k);
    }
}

proof fn lemma_apply_fields_has(
    props: Map<Seq<char>, FieldValue>,
    fields: Seq<Field>,
    tags: Map<Seq<char>, Seq<char>>,
    f: int,
)
    requires
        0 <= f < fields.len(),
        tags.contains_key(fields[f].name@),
    ensures
        apply_fields(props, fields, tags).contains_key(field_key(fields[f])),
    decreases fields.len(),
{
    let f0 = fields[0];
    let next = if tags.contains_key(f0.name@) {
        props.insert(field_key(f0), spec_try_mapping(tags[f0.name@], f0.mapping))
    } else {
        props
    };
    let rest = fields.drop_first();
    if f == 0 {
        lemma_apply_fields_mono(next, rest, tags, field_key(fields[f]));
    } else {
        assert(rest[f - 1] == fields[f]);
        lemma_apply_fields_has(next, rest, tags, f - 1);
    }
}

proof fn lemma_apply_configs_mono(
    props: Map<Seq<char>, FieldValue>,
    configs: Seq<Config>,
    tags: Map<Seq<char>, Seq<char>>,
    k: Seq<char>,
)
    requires
        props.contains_key(k),
    ensures
        apply_configs(props, configs, tags).contains_key(k),
    decreases configs.len(),
{
    if configs.len() > 0 {
        let c0 = configs[0];
        let with_class = match spec_sort_class(c0, tags) {
            Some(t) => props.insert(class_key(), FieldValue::Text(t)),
            None => props,
        };
        lemma_apply_fields_mono(with_class, c0.fields@, tags, k);
        lemma_apply_configs_mono(apply_config(props, c0, tags), configs.drop_first(), tags, k);
    }
}

proof fn lemma_apply_configs_has(
    props: Map<Seq<char>, FieldValue>,
    configs: Seq<Config>,
    tags: Map<Seq<char>, Seq<char>>,
    c: int,
    f: int,
)
    requires
        0 <= c < configs.len(),
        0 <= f < configs[c].fields@.len(),
        tags.contains_key(configs[c].fields@[f].name@),
    ensures
        apply_configs(props, configs, tags).contains_key(field_key(configs[c].fields@[f])),
    decreases configs.len(),
{
    let c0 = configs[0];
    let rest = configs.drop_first();
    let after = apply_config(props, c0, tags);
    if c == 0 {
        let with_class = match spec_sort_class(c0, tags) {
            Some(t) => props.insert(class_key(), FieldValue::Text(t)),
            None => props,
        };
        lemma_apply_fields_has(with_class, c0.fields@, tags, f);
        lemma_apply_configs_mono(after, rest, tags, field_key(configs[c].fields@[f]));
    } else {
        assert(rest[c - 1] == configs[c]);
        lemma_apply_configs_has(after, rest, tags, c - 1, f);
    }
}

/// Every field of every schema whose tag is present reaches the properties,
/// under its new name where it has one, whether or not any schema gives the
/// element a class; a later field or schema may change its value, never
/// remove it.
pub proof fn law_sort_fields_present_fields(
    tags: Map<Seq<char>, Seq<char>>,
    configs: Seq<Config>,
    c: int,
    f: int,
)
    requires
        0 <= c < configs.len(),
        0 <= f < configs[c].fields@.len(),
        tags.contains_key(configs[c].fields@[f].name@),
    ensures
        spec_sort_fields(tags, configs).contains_key(
            match configs[c].fields@[f].rename_to {
                Some(r) => r@,
                None => configs[c].fields@[f].name@,
            },
        ),
{
    lemma_apply_configs_has(Map::empty(), configs, tags, c, f);
}

proof fn lemma_apply_configs_last(
    props: Map<Seq<char>, FieldValue>,
    configs: Seq<Config>,
    tags: Map<Seq<char>, Seq<char>>,
)
    requires
        configs.len() > 0,
    ensures
        apply_configs(props, configs, tags) == apply_config(
            apply_configs(props, configs.drop_last(), tags),
            configs.last(),
            tags,
        ),
    decreases configs.len(),
{
    let rest = configs.drop_first();
    let q = apply_config(props, configs[0], tags);
    assert(apply_configs(props, configs, tags) == apply_configs(q, rest, tags));
    if configs.len() == 1 {
        assert(rest.len() == 0);
        assert(apply_configs(q, rest, tags) == q);
        assert(configs.drop_last().len() == 0);
        assert(apply_configs(props, configs.drop_last(), tags) == props);
        assert(configs.last() == configs[0]);
    } else {
        lemma_apply_configs_last(q, rest, tags);
        let d = configs.drop_last();
        assert(d.drop_first() =~= rest.drop_last());
        assert(d[0] == configs[0]);
        assert(apply_configs(props, d, tags) == apply_configs(apply_config(props, d[0], tags), d.drop_first(), tags));
        assert(rest.last() == configs.last());
    }
}

proof fn lemma_apply_fields_untouched(
    props: Map<Seq<char>, FieldValue>,
    fields: Seq<Field>,
    tags: Map<Seq<char>, Seq<char>>,
    k: Seq<char>,
)
    requires
        forall|g: int|
            0 <= g < fields.len() && tags.contains_key(#[trigger] fields[g].name@) ==> field_key(
                fields[g],
            ) != k,
    ensures
        apply_fields(props, fields, tags).contains_key(k) == props.contains_key(k),
        props.contains_key(k) ==> apply_fields(props, fields, tags)[k] == props[k],
    decreases fields.len(),
{
    if fields.len() > 0 {
        let f0 = fields[0];
        let next = if tags.contains_key(f0.name@) {
            props.insert(field_key(f0), spec_try_mapping(tags[f0.name@], f0.mapping))
        } else {
            props
        };
        let rest = fields.drop_first();
        assert forall|g: int|
            0 <= g < rest.len() && tags.contains_key(#[trigger] rest[g].name@) implies field_key(
                rest[g],
            ) != k by {
            assert(rest[g] == fields[g + 1]);
        }
        lemma_apply_fields_untouched(next, rest, tags, k);
    }
}

proof fn lemma_apply_fields_value(
    props: Map<Seq<char>, FieldValue>,
    fields: Seq<Field>,
    tags: Map<Seq<char>, Seq<char>>,
    f: int,
)
    requires
        0 <= f < fields.len(),
        tags.contains_key(fields[f].name@),
        forall|g: int|
            f < g < fields.len() && tags.contains_key(#[trigger] fields[g].name@) ==> field_key(
                fields[g],
            ) != field_key(fields[f]),
    ensures
        apply_fields(props, fields, tags)[field_key(fields[f])] == spec_try_mapping(
            tags[fields[f].name@],
            fields[f].mapping,
        ),
    decreases fields.len(),
{
    let f0 = fields[0];
    let next = if tags.contains_key(f0.name@) {
        props.insert(field_key(f0), spec_try_mapping(tags[f0.name@], f0.mapping))
    } else {
        props
    };
    let rest = fields.drop_first();
    if f == 0 {
        assert forall|g: int|
            0 <= g < rest.len() && tags.contains_key(#[trigger] rest[g].name@) implies field_key(
                rest[g],
            ) != field_key(fields[0]) by {
            assert(rest[g] == fields[g + 1]);
        }
        lemma_apply_fields_untouched(next, rest, tags, field_key(fields[0]));
    } else {
        assert(rest[f - 1] == fields[f]);
        assert forall|g: int|
            f - 1 < g < rest.len() && tags.contains_key(#[trigger] rest[g].name@) implies field_key(
                rest[g],
            ) != field_key(rest[f - 1]) by {
            assert(rest[g] == fields[g + 1]);
        }
        lemma_apply_fields_value(next, rest, tags, f - 1);
    }
}

/// A field of the last schema whose tag is present, and which no later field
/// of that schema with a present tag shares a key with, holds its tag's value
/// mapped and typed, whatever the class rules say.
pub proof fn law_sort_fields_last_value(
    tags: Map<Seq<char>, Seq<char>>,
    configs: Seq<Config>,
    f: int,
)
    requires
        configs.len() > 0,
        0 <= f < configs.last().fields@.len(),
        tags.contains_key(configs.last().fields@[f].name@),
        forall|g: int|
            f < g < configs.last().fields@.len() && tags.contains_key(
                #[trigger] configs.last().fields@[g].name@,
            ) ==> field_key(configs.last().fields@[g]) != field_key(configs.last().fields@[f]),
    ensures
        spec_sort_fields(tags, configs)[field_key(configs.last().fields@[f])] == spec_try_mapping(
            tags[configs.last().fields@[f].name@],
            configs.last().fields@[f].mapping,
        ),
{
    let last = configs.last();
    let before = apply_configs(Map::empty(), configs.drop_last(), tags);
    lemma_apply_configs_last(Map::empty(), configs, tags);
    let with_class = match spec_sort_class(last, tags) {
        Some(t) => before.insert(class_key(), FieldValue::Text(t)),
        None => before,
    };
    lemma_apply_fields_value(with_class, last.fields@, tags, f);
}

proof fn lemma_first_class_at(kvats: Seq<Kvat>, tags: Map<Seq<char>, Seq<char>>, i: int)
    requires
        0 <= i < kvats.len(),
        has_tag_value(tags, kvats[i].key@, kvats[i].values@),
        match kvats[i].and {
            None => true,
            Some(and) => exists|j: int|
                #![trigger and@[j]]
                0 <= j < and@.len() && has_tag_value(tags, and@[j].key@, and@[j].values@),
        },
        forall|k: int|
            0 <= k < i ==> !(has_tag_value(tags, #[trigger] kvats[k].key@, kvats[k].values@)
                && match kvats[k].and {
                None => true,
                Some(and) => exists|j: int|
                    #![trigger and@[j]]
                    0 <= j < and@.len() && has_tag_value(tags, and@[j].key@, and@[j].values@),
            }),
    ensures
        first_class(kvats, tags) == Some(kvats[i].then_class@),
    decreases i,
{
    if i > 0 {
        let rest = kvats.drop_first();
        assert(rest[i - 1] == kvats[i]);
        assert forall|k: int| 0 <= k < i - 1 implies !(has_tag_value(
            tags,
            #[trigger] rest[k].key@,
            rest[k].values@,
        ) && match rest[k].and {
            None => true,
            Some(and) => exists|j: int|
                #![trigger and@[j]]
                0 <= j < and@.len() && has_tag_value(tags, and@[j].key@, and@[j].values@),
        }) by {
            assert(rest[k] == kvats[k + 1]);
        }
        lemma_first_class_at(rest, tags, i - 1);
        assert(!(has_tag_value(tags, kvats[0].key@, kvats[0].values@) && match kvats[0].and {
            None => true,
            Some(and) => exists|j: int|
                #![trigger and@[j]]
                0 <= j < and@.len() && has_tag_value(tags, and@[j].key@, and@[j].values@),
        }));
    }
}

/// The class comes from the first rule whose key has one of its values and
/// which either has no `and` list or has some condition in it, at any
/// position, whose key has one of its values.
pub proof fn law_sort_class_rule_applies(config: Config, tags: Map<Seq<char>, Seq<char>>, i: int)
    requires
        config.class is Some,
        0 <= i < config.class->Some_0@.len(),
        has_tag_value(tags, config.class->Some_0@[i].key@, config.class->Some_0@[i].values@),
        match config.class->Some_0@[i].and {
            None => true,
            Some(and) => exists|j: int|
                #![trigger and@[j]]
                0 <= j < and@.len() && has_tag_value(tags, and@[j].key@, and@[j].values@),
        },
        forall|k: int|
            0 <= k < i ==> !(has_tag_value(
                tags,
                #[trigger] config.class->Some_0@[k].key@,
                config.class->Some_0@[k].values@,
            ) && match config.class->Some_0@[k].and {
                None => true,
                Some(and) => exists|j: int|
                    #![trigger and@[j]]
                    0 <= j < and@.len() && has_tag_value(tags, and@[j].key@, and@[j].values@),
            }),
    ensures
        spec_sort_class(config, tags) == Some(config.class->Some_0@[i].then_class@),
{
    lemma_first_class_at(config.class->Some_0@, tags, i);
}

} // verus!
