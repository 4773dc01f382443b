//! Text-keyed association lists in which a later entry overrides an earlier
//! one with the same key, as an insertion into a hash map or a JSON object does.

use vstd::prelude::*;

verus! {

/// The map that a list of entries denotes: each key is bound to the value of
/// its last entry.
pub open spec fn last_wins<W>(s: Seq<(Seq<char>, W)>) -> Map<Seq<char>, W>
    decreases s.len(),
{
    if s.len() == 0 {
        Map::empty()
    } else {
        last_wins(s.drop_last()).insert(s.last().0, s.last().1)
    }
}

/// The entries of a list, each key and value taken by its view.
pub open spec fn entries_view<V: View>(s: Seq<(String, V)>) -> Seq<(Seq<char>, V::V)> {
    s.map_values(|p: (String, V)| (p.0@, p.1@))
}

/// Entries after position `n` whose key differs from `k` do not change what
/// `k` is bound to.
pub proof fn lemma_last_wins_suffix<W>(s: Seq<(Seq<char>, W)>, n: int, k: Seq<char>)
    requires
        0 <= n <= s.len(),
        forall|j: int| n <= j < s.len() ==> #[trigger] s[j].0 != k,
    ensures
        last_wins(s).contains_key(k) == last_wins(s.take(n)).contains_key(k),
        last_wins(s).contains_key(k) ==> last_wins(s)[k] == last_wins(s.take(n))[k],
    decreases s.len(),
{
    if s.len() == n {
        assert(s.take(n) =~= s);
    } else {
        let d = s.drop_last();
        assert(s[s.len() - 1].0 != k);
        assert forall|j: int| n <= j < d.len() implies #[trigger] d[j].0 != k by {
            assert(d[j] == s[j]);
        }
        lemma_last_wins_suffix(d, n, k);
        assert(d.take(n) =~= s.take(n));
    }
}

/// The last entry of a prefix binds its key to its value.
pub proof fn lemma_last_wins_prefix_last<W>(s: Seq<(Seq<char>, W)>, i: int)
    requires
        0 <= i < s.len(),
    ensures
        last_wins(s.take(i + 1)).contains_key(s[i].0),
        last_wins(s.take(i + 1))[s[i].0] == s[i].1,
{
    assert(s.take(i + 1).drop_last() =~= s.take(i));
}

/// Appending an entry binds its key to its value and leaves the other keys.
pub proof fn lemma_last_wins_push<W>(s: Seq<(Seq<char>, W)>, k: Seq<char>, v: W)
    ensures
        last_wins(s.push((k, v))) == last_wins(s).insert(k, v),
{
    assert(s.push((k, v)).drop_last() =~= s);
}

/// The entries of `b` after those of `a` bind each key of `b` as `b` does and
/// every other key as `a` does.
pub proof fn lemma_last_wins_concat<W>(a: Seq<(Seq<char>, W)>, b: Seq<(Seq<char>, W)>)
    ensures
        last_wins(a + b) == last_wins(a).union_prefer_right(last_wins(b)),
    decreases b.len(),
{
    if b.len() == 0 {
        assert(a + b =~= a);
        assert(last_wins(a).union_prefer_right(last_wins(b)) =~= last_wins(a));
    } else {
        let bd = b.drop_last();
        lemma_last_wins_concat(a, bd);
        assert((a + b).drop_last() =~= a + bd);
        assert((a + b).last() == b.last());
        assert(last_wins(a + b) =~= last_wins(a).union_prefer_right(last_wins(b)));
    }
}

/// A store of text keys (the tags of an element, the properties of a point of
/// interest) gives back what was last written: after `insert(key, value)`,
/// `get(key)` gives `value`, and every other key gives what it gave before.
pub proof fn law_read_after_write<W>(
    before: Map<Seq<char>, W>,
    after: Map<Seq<char>, W>,
    key: Seq<char>,
    value: W,
)
    requires
        after == before.insert(key, value),
    ensures
        after.contains_key(key),
        after[key] == value,
        forall|other: Seq<char>|
            other != key ==> (#[trigger] after.contains_key(other) == before.contains_key(other)
                && (before.contains_key(other) ==> after[other] == before[other])),
{
}

/// Finds the position of the last entry whose key is `key`.
pub fn find_last<V: View>(entries: &Vec<(String, V)>, key: &str) -> (r: Option<usize>)
    ensures
        match r {
            Some(i) => {
                &&& i < entries@.len()
                &&& entries@[i as int].0@ == key@
                &&& last_wins(entries_view(entries@)).contains_key(key@)
                &&& last_wins(entries_view(entries@))[key@] == entries@[i as int].1@
            },
            None => !last_wins(entries_view(entries@)).contains_key(key@),
        },
{
    let ghost ev = entries_view(entries@);
    let wanted = key.to_owned();
    let mut i: usize = entries.len();
    while i > 0
        invariant
            i <= entries@.len(),
            ev == entries_view(entries@),
            wanted@ == key@,
            forall|j: int| i <= j < ev.len() ==> #[trigger] ev[j].0 != key@,
        decreases i,
    {
        if entries[i - 1].0 == wanted {
            proof {
                lemma_last_wins_suffix(ev, i as int, key@);
                lemma_last_wins_prefix_last(ev, i - 1);
            }
            return Some(i - 1);
        }
        i = i - 1;
    }
    proof {
        lemma_last_wins_suffix(ev, 0, key@);
    }
    None
}

} // verus!
