//! Sorting elements into a layer of points of interest by a schema's class
//! rules, as the OpenMapTiles schemas do.

use vstd::prelude::*;
use crate::osmpbf::{Osm, OsmCollection, Property};
use crate::process::properties::class_key;
use crate::schema::{Pio, PioCollection, PropertyValue, PropertyValueView};
use crate::utils::assoc::{entries_view, last_wins, lemma_last_wins_push};
use crate::utils::config::{contains_text, values_contain, Config, Kvat};

verus! {

/// Some property has key `key` and one of `values`.
pub open spec fn props_have_value(props: Seq<Property>, key: Seq<char>, values: Seq<String>) -> bool {
    exists|p: int|
        #![trigger props[p]]
        0 <= p < props.len() && props[p].key@ == key && contains_text(values, props[p].value@)
}

/// A class rule applies to property `prop`: the rule's key is the property's
/// key, its values hold the property's value, and every condition of its
/// `and` list holds of some property.
pub open spec fn omt_rule_applies(k: Kvat, prop: Property, props: Seq<Property>) -> bool {
    &&& k.key@ == prop.key@
    &&& contains_text(k.values@, prop.value@)
    &&& match k.and {
        Some(and) => forall|a: int|
            #![trigger and@[a]]
            0 <= a < and@.len() ==> props_have_value(props, and@[a].key@, and@[a].values@),
        None => true,
    }
}

/// The class after trying each rule, in order, on one property: the last rule
/// that applies sets it.
pub open spec fn class_after_rules(
    cur: Seq<char>,
    rules: Seq<Kvat>,
    prop: Property,
    props: Seq<Property>,
) -> Seq<char>
    decreases rules.len(),
{
    if rules.len() == 0 {
        cur
    } else {
        let next = if omt_rule_applies(rules[0], prop, props) {
            rules[0].then_class@
        } else {
            cur
        };
        class_after_rules(next, rules.drop_first(), prop, props)
    }
}

/// The class after trying the rules on each property in turn.
pub open spec fn class_after_props(
    cur: Seq<char>,
    outer: Seq<Property>,
    rules: Seq<Kvat>,
    props: Seq<Property>,
) -> Seq<char>
    decreases outer.len(),
{
    if outer.len() == 0 {
        cur
    } else {
        class_after_props(
            class_after_rules(cur, rules, outer[0], props),
            outer.drop_first(),
            rules,
            props,
        )
    }
}

/// The class rules of a schema; none where it has none.
pub open spec fn omt_rules(config: Config) -> Seq<Kvat> {
    match config.class {
        Some(c) => c@,
        None => Seq::empty(),
    }
}

/// The class a schema gives an element: empty where the element has no
/// geometry type or one the schema does not take, else the class set last.
pub open spec fn spec_omt_class(config: Config, osm: Osm) -> Seq<char> {
    match osm.geometry_type {
        Some(t) => if contains_text(config.geometry_types@, t@) {
            class_after_props(Seq::empty(), osm.properties@, omt_rules(config), osm.properties@)
        } else {
            Seq::empty()
        },
        None => Seq::empty(),
    }
}

/// The map with the single entry `class` set to the text `c`.
pub open spec fn class_properties(c: Seq<char>) -> Map<Seq<char>, PropertyValueView> {
    Map::<Seq<char>, PropertyValueView>::empty().insert(class_key(), PropertyValueView::Text(c))
}

/// `p` is the point of interest made from `osm`: its id, kind and geometry,
/// with the class as its one property.
pub open spec fn is_omt_pio(p: Pio, config: Config, osm: Osm) -> bool {
    &&& p.osm_id == osm.id
    &&& p.osm_type@ == osm.osm_type@
    &&& osm.geometry == Some(p.geometry)
    &&& p.properties_map() == class_properties(spec_omt_class(config, osm))
}

/// An element that the schema gives a class has a geometry.
pub open spec fn omt_ready(config: Config, osm: Osm) -> bool {
    spec_omt_class(config, osm).len() > 0 ==> osm.geometry is Some
}

/// Whether some property has key `key` and one of `values`.
fn props_have_value_exec(props: &Vec<Property>, key: &String, values: &Vec<String>) -> (r: bool)
    ensures
        r == props_have_value(props@, key@, values@),
{
    let mut p: usize = 0;
    while p < props.len()
        invariant
            p <= props@.len(),
            forall|q: int|
                0 <= q < p ==> !(#[trigger] props@[q].key@ == key@ && contains_text(
                    values@,
                    props@[q].value@,
                )),
        decreases props@.len() - p,
    {
        if props[p].key == *key && values_contain(values, props[p].value.as_str()) {
            return true;
        }
        p = p + 1;
    }
    false
}

/// Whether a class rule applies to a property.
fn omt_rule_applies_exec(k: &Kvat, prop: &Property, props: &Vec<Property>) -> (r: bool)
    ensures
        r == omt_rule_applies(*k, *prop, props@),
{
    if !(k.key == prop.key && values_contain(&k.values, prop.value.as_str())) {
        return false;
    }
    match &k.and {
        None => true,
        Some(and) => {
            let mut a: usize = 0;
            while a < and.len()
                invariant
                    k.and == Some(*and),
                    a <= and@.len(),
                    forall|b: int|
                        0 <= b < a ==> props_have_value(
                            props@,
                            #[trigger] and@[b].key@,
                            and@[b].values@,
                        ),
                decreases and@.len() - a,
            {
                if !props_have_value_exec(props, &and[a].key, &and[a].values) {
                    proof {
                        let ak = k.and->Some_0;
                        assert(ak@[a as int] == and@[a as int]);
                        assert(!props_have_value(props@, ak@[a as int].key@, ak@[a as int].values@));
                    }
                    return false;
                }
                a = a + 1;
            }
            true
        },
    }
}

/// The class a schema gives an element: empty where the element has no
/// geometry type or one the schema does not take; else, trying every rule on
/// every property in order, the class of the last rule that applied.
pub fn omt_class(config: &Config, osm: &Osm) -> (r: String)
    ensures
        r@ == spec_omt_class(*config, *osm),
{
    let mut pio_class = String::new();
    let ghost rules = omt_rules(*config);
    let props = &osm.properties;
    match &osm.geometry_type {
        Some(geom_type) => {
            if values_contain(&config.geometry_types, geom_type.as_str()) {
                let empty_rules: Vec<Kvat> = Vec::new();
                let classes = match &config.class {
                    Some(c) => c,
                    None => &empty_rules,
                };
                assert(classes@ == rules);
                let mut i: usize = 0;
                assert(props@.skip(0) =~= props@);
                while i < props.len()
                    invariant
                        classes@ == rules,
                        i <= props@.len(),
                        class_after_props(pio_class@, props@.skip(i as int), rules, props@)
                            == class_after_props(Seq::empty(), props@, rules, props@),
                    decreases props@.len() - i,
                {
                    assert(props@.skip(i as int).drop_first() =~= props@.skip(i + 1));
                    assert(props@.skip(i as int)[0] == props@[i as int]);
                    let prop = &props[i];
                    let ghost start = pio_class@;
                    let mut j: usize = 0;
                    assert(classes@.skip(0) =~= classes@);
                    while j < classes.len()
                        invariant
                            classes@ == rules,
                            j <= classes@.len(),
                            class_after_rules(pio_class@, classes@.skip(j as int), *prop, props@)
                                == class_after_rules(start, rules, *prop, props@),
                        decreases classes@.len() - j,
                    {
                        assert(classes@.skip(j as int).drop_first() =~= classes@.skip(j + 1));
                        assert(classes@.skip(j as int)[0] == classes@[j as int]);
                        if omt_rule_applies_exec(&classes[j], prop, props) {
                            pio_class = classes[j].then_class.clone();
                        }
                        j = j + 1;
                    }
                    assert(classes@.skip(j as int).len() == 0);
                    i = i + 1;
                }
                assert(props@.skip(i as int).len() == 0);
            }
        },
        None => {},
    }
    pio_class
}

/// The point of interest a schema makes of an element: none where the schema
/// gives it no class (no geometry type, one the schema does not take, or no
/// rule applies); else its id, kind and geometry with the class as property.
pub fn to_omt(config: &Config, osm: &Osm) -> (r: Option<Pio>)
    requires
        omt_ready(*config, *osm),
    ensures
        r is Some <==> spec_omt_class(*config, *osm).len() > 0,
        r matches Some(p) ==> is_omt_pio(p, *config, *osm),
{
    let pio_class = omt_class(config, osm);
    if pio_class.as_str().is_empty() {
        return None;
    }
    let key = String::from_str("class");
    proof {
        reveal_strlit("class");
        assert("class"@ =~= class_key());
    }
    let mut properties: Vec<(String, PropertyValue)> = Vec::new();
    proof {
        lemma_last_wins_push(entries_view(properties@), key@, PropertyValueView::Text(pio_class@));
    }
    let ghost c = pio_class@;
    properties.push((key, PropertyValue::Text(pio_class)));
    assert(entries_view(properties@) =~= seq![(class_key(), PropertyValueView::Text(c))]);
    assert(entries_view(properties@) =~= entries_view(Seq::<(String, PropertyValue)>::empty()).push(
        (class_key(), PropertyValueView::Text(c)),
    ));
    let geometry = match osm.geometry {
        Some(g) => g,
        None => {
            assert(false);
            return None;
        },
    };
    Some(Pio { osm_id: osm.id, osm_type: osm.osm_type.clone(), geometry, properties })
}

/// The elements that a schema gives a class, in order.
pub open spec fn omt_kept(config: Config, objs: Seq<Osm>) -> Seq<Osm>
    decreases objs.len(),
{
    if objs.len() == 0 {
        Seq::empty()
    } else {
        let kept = omt_kept(config, objs.drop_last());
        if spec_omt_class(config, objs.last()).len() > 0 {
            kept.push(objs.last())
        } else {
            kept
        }
    }
}

/// Sorts the elements into the schema's layer: the collection is named after
/// the schema's layer and holds, in order, the point of interest of each
/// element that the schema gives a class.
pub fn apply(config: &Config, data: &OsmCollection) -> (r: PioCollection)
    requires
        forall|i: int| 0 <= i < data.objects@.len() ==> omt_ready(*config, #[trigger] data.objects@[i]),
    ensures
        r.layer@ == config.layer@,
        r.objects@.len() == omt_kept(*config, data.objects@).len(),
        forall|j: int|
            0 <= j < r.objects@.len() ==> is_omt_pio(
                #[trigger] r.objects@[j],
                *config,
                omt_kept(*config, data.objects@)[j],
            ),
{
    let mut pc = PioCollection::new();
    pc.layer = config.layer.clone();
    let ghost objs = data.objects@;
    let mut i: usize = 0;
    while i < data.objects.len()
        invariant
            objs == data.objects@,
            forall|k: int| 0 <= k < objs.len() ==> omt_ready(*config, #[trigger] objs[k]),
            i <= objs.len(),
            pc.layer@ == config.layer@,
            pc.objects@.len() == omt_kept(*config, objs.take(i as int)).len(),
            forall|j: int|
                0 <= j < pc.objects@.len() ==> is_omt_pio(
                    #[trigger] pc.objects@[j],
                    *config,
                    omt_kept(*config, objs.take(i as int))[j],
                ),
        decreases objs.len() - i,
    {
        let ghost before = pc.objects@;
        assert(objs.take(i + 1).drop_last() =~= objs.take(i as int));
        assert(objs.take(i + 1).last() == objs[i as int]);
        let pio = to_omt(config, &data.objects[i]);
        match pio {
            Some(pio) => {
                pc.add(pio);
                assert forall|j: int| 0 <= j < pc.objects@.len() implies is_omt_pio(
                    #[trigger] pc.objects@[j],
                    *config,
                    omt_kept(*config, objs.take(i + 1))[j],
                ) by {
                    if j < before.len() {
                        assert(pc.objects@[j] == before[j]);
                    }
                }
            },
            None => {},
        }
        i = i + 1;
    }
    assert(objs.take(i as int) =~= objs);
    pc
}

/// The layer holds only elements that the schema gives a non-empty class,
/// never more than it was given, each one of the elements given.
pub proof fn law_apply_keeps_classified(config: Config, objs: Seq<Osm>)
    ensures
        omt_kept(config, objs).len() <= objs.len(),
        forall|j: int|
            0 <= j < omt_kept(config, objs).len() ==> spec_omt_class(
                config,
                #[trigger] omt_kept(config, objs)[j],
            ).len() > 0,
        forall|j: int|
            0 <= j < omt_kept(config, objs).len() ==> objs.contains(
                #[trigger] omt_kept(config, objs)[j],
            ),
    decreases objs.len(),
{
    if objs.len() > 0 {
        let d = objs.drop_last();
        law_apply_keeps_classified(config, d);
        let kept = omt_kept(config, objs);
        assert forall|j: int| 0 <= j < kept.len() implies objs.contains(#[trigger] kept[j]) by {
            if j < omt_kept(config, d).len() {
                assert(kept[j] == omt_kept(config, d)[j]);
                let w = choose|w: int| 0 <= w < d.len() && d[w] == kept[j];
                assert(objs[w] == d[w]);
            } else {
                assert(kept[j] == objs[objs.len() - 1]);
            }
        }
        assert forall|j: int| 0 <= j < kept.len() implies spec_omt_class(
            config,
            #[trigger] kept[j],
        ).len() > 0 by {
            if j < omt_kept(config, d).len() {
                assert(kept[j] == omt_kept(config, d)[j]);
            }
        }
    }
}


/// Every element that the schema gives a non-empty class is in the layer:
/// none is dropped, wherever it stands in the input.
pub proof fn law_apply_complete(config: Config, objs: Seq<Osm>, i: int)
    requires
        0 <= i < objs.len(),
        spec_omt_class(config, objs[i]).len() > 0,
    ensures
        omt_kept(config, objs).contains(objs[i]),
    decreases objs.len(),
{
    let d = objs.drop_last();
    let kept = omt_kept(config, objs);
    if i == objs.len() - 1 {
        assert(kept[kept.len() - 1] == objs[i]);
    } else {
        assert(d[i] == objs[i]);
        law_apply_complete(config, d, i);
        let w = choose|w: int| 0 <= w < omt_kept(config, d).len() && omt_kept(config, d)[w] == objs[i];
        assert(kept[w] == objs[i]);
    }
}

/// Where every element gets a class, the layer holds them all, in order.
pub proof fn law_apply_all_classified(config: Config, objs: Seq<Osm>)
    requires
        forall|i: int| 0 <= i < objs.len() ==> spec_omt_class(config, #[trigger] objs[i]).len() > 0,
    ensures
        omt_kept(config, objs) == objs,
    decreases objs.len(),
{
    if objs.len() > 0 {
        let d = objs.drop_last();
        assert forall|i: int| 0 <= i < d.len() implies spec_omt_class(config, #[trigger] d[i]).len()
            > 0 by {
            assert(d[i] == objs[i]);
        }
        law_apply_all_classified(config, d);
        assert(spec_omt_class(config, objs[objs.len() - 1]).len() > 0);
        assert(d.push(objs.last()) =~= objs);
    }
}

} // verus!
