//! The catalog: a set of plugin entries, kept as a sequence in strictly
//! ascending order of group and name, so that no entry occurs twice and the
//! sequence is determined by the set.

use crate::astrocommunity::{entries, Entry, PluginInfo};
use crate::text::{
    lemma_precedes_irreflexive, lemma_precedes_total, lemma_precedes_transitive, order, precedes,
    Rank,
};
use vstd::prelude::*;

verus! {

/// `a` comes before `b`: by group, and within one group by name.
pub open spec fn entry_precedes(a: Entry, b: Entry) -> bool {
    precedes(a.group, b.group) || (a.group == b.group && precedes(a.name, b.name))
}

/// The entries stand in strictly ascending order.
pub open spec fn is_catalog(catalog: Seq<Entry>) -> bool {
    forall|i: int, j: int| 0 <= i < j < catalog.len() ==> entry_precedes(catalog[i], catalog[j])
}

/// Both sequences hold the same entries, whatever their order and number.
pub open spec fn same_members(a: Seq<Entry>, b: Seq<Entry>) -> bool {
    forall|e: Entry| a.contains(e) <==> b.contains(e)
}

/// No entry comes before itself.
pub proof fn lemma_entry_precedes_irreflexive(a: Entry)
    ensures
        !entry_precedes(a, a),
{
    lemma_precedes_irreflexive(a.group);
    lemma_precedes_irreflexive(a.name);
}

/// The order of entries is transitive.
pub proof fn lemma_entry_precedes_transitive(a: Entry, b: Entry, c: Entry)
    requires
        entry_precedes(a, b),
        entry_precedes(b, c),
    ensures
        entry_precedes(a, c),
{
    if precedes(a.group, b.group) && precedes(b.group, c.group) {
        lemma_precedes_transitive(a.group, b.group, c.group);
    } else if a.group == b.group && b.group == c.group {
        lemma_precedes_transitive(a.name, b.name, c.name);
    }
}

/// Of two distinct entries one comes before the other.
pub proof fn lemma_entry_precedes_total(a: Entry, b: Entry)
    ensures
        a == b || entry_precedes(a, b) || entry_precedes(b, a),
{
    lemma_precedes_total(a.group, b.group);
    lemma_precedes_total(a.name, b.name);
}

/// A catalog holds each of its entries once.
pub proof fn lemma_catalog_has_no_duplicates(catalog: Seq<Entry>)
    requires
        is_catalog(catalog),
    ensures
        forall|i: int, j: int|
            0 <= i < catalog.len() && 0 <= j < catalog.len() && catalog[i] == catalog[j] ==> i == j,
{
    assert forall|i: int, j: int|
        0 <= i < catalog.len() && 0 <= j < catalog.len() && catalog[i] == catalog[j] implies i
        == j by {
        lemma_entry_precedes_irreflexive(catalog[i]);
    }
}

/// A set of entries has one catalog: two catalogs with the same members are
/// the same sequence.
pub proof fn lemma_catalog_unique(a: Seq<Entry>, b: Seq<Entry>)
    requires
        is_catalog(a),
        is_catalog(b),
        same_members(a, b),
    ensures
        a == b,
    decreases a.len(),
{
    if a.len() == 0 {
        if b.len() > 0 {
            assert(b.contains(b[0]));
            assert(a.contains(b[0]));
        }
        assert(a =~= b);
    } else {
        assert(a.contains(a[0]));
        assert(b.contains(a[0]));
        let j = choose|j: int| 0 <= j < b.len() && b[j] == a[0];
        assert(b.contains(b[0]));
        assert(a.contains(b[0]));
        let i = choose|i: int| 0 <= i < a.len() && a[i] == b[0];
        if j > 0 {
            lemma_entry_precedes_irreflexive(a[0]);
            if i > 0 {
                lemma_entry_precedes_transitive(a[0], b[0], a[0]);
            }
        }
        assert(a[0] == b[0]);
        let x = a.drop_first();
        let y = b.drop_first();
        assert forall|e: Entry| x.contains(e) <==> y.contains(e) by {
            lemma_entry_precedes_irreflexive(a[0]);
            if x.contains(e) {
                let k = choose|k: int| 0 <= k < x.len() && x[k] == e;
                assert(a[k + 1] == e);
                assert(a.contains(e));
                let m = choose|m: int| 0 <= m < b.len() && b[m] == e;
                assert(entry_precedes(a[0], a[k + 1]));
                assert(m > 0);
                assert(y[m - 1] == e);
            }
            if y.contains(e) {
                let k = choose|k: int| 0 <= k < y.len() && y[k] == e;
                assert(b[k + 1] == e);
                assert(b.contains(e));
                let m = choose|m: int| 0 <= m < a.len() && a[m] == e;
                assert(entry_precedes(b[0], b[k + 1]));
                assert(m > 0);
                assert(x[m - 1] == e);
            }
        }
        assert forall|p: int, q: int| 0 <= p < q < x.len() implies entry_precedes(x[p], x[q]) by {
            assert(x[p] == a[p + 1] && x[q] == a[q + 1]);
        }
        assert forall|p: int, q: int| 0 <= p < q < y.len() implies entry_precedes(y[p], y[q]) by {
            assert(y[p] == b[p + 1] && y[q] == b[q + 1]);
        }
        lemma_catalog_unique(x, y);
        assert(a =~= seq![a[0]] + x);
        assert(b =~= seq![b[0]] + y);
    }
}

/// Where `plugin` stands relative to `other`, by group and then by name.
fn entry_order(plugin: &PluginInfo, other: &PluginInfo) -> (rank: Rank)
    ensures
        match rank {
            Rank::Before => entry_precedes(plugin@, other@),
            Rank::Same => plugin@ == other@,
            Rank::After => entry_precedes(other@, plugin@),
        },
{
    match order(plugin.group.as_str(), other.group.as_str()) {
        Rank::Before => Rank::Before,
        Rank::After => Rank::After,
        Rank::Same => order(plugin.name.as_str(), other.name.as_str()),
    }
}

/// Puts `plugin` into the catalog at its place in the order, unless the
/// catalog holds that entry already.
pub fn insert(catalog: &mut Vec<PluginInfo>, plugin: PluginInfo)
    requires
        is_catalog(entries(old(catalog)@)),
    ensures
        is_catalog(entries(final(catalog)@)),
        forall|e: Entry|
            entries(final(catalog)@).contains(e) <==> (entries(old(catalog)@).contains(e) || e
                == plugin@),
{
    let ghost before = entries(catalog@);
    let mut at: usize = 0;
    while at < catalog.len()
        invariant
            *catalog == *old(catalog),
            before == entries(catalog@),
            is_catalog(before),
            at <= catalog.len(),
            forall|k: int| 0 <= k < at ==> entry_precedes(before[k], plugin@),
        ensures
            at == catalog.len() || entry_precedes(plugin@, before[at as int]),
        decreases catalog.len() - at,
    {
        match entry_order(&catalog[at], &plugin) {
            Rank::Before => {
                at += 1;
            },
            Rank::Same => {
                proof {
                    assert(before[at as int] == plugin@);
                    assert(before.contains(plugin@));
                }
                return ;
            },
            Rank::After => {
                break ;
            },
        }
    }
    catalog.insert(at, plugin);
    proof {
        let after = entries(catalog@);
        assert(after =~= before.insert(at as int, plugin@));
        assert forall|i: int, j: int| 0 <= i < j < after.len() implies entry_precedes(
            after[i],
            after[j],
        ) by {
            if j < at {
            } else if j == at {
            } else if i == at {
                assert(after[j] == before[j - 1]);
                if j - 1 > at {
                    lemma_entry_precedes_transitive(plugin@, before[at as int], before[j - 1]);
                }
            } else if i < at {
                assert(after[j] == before[j - 1]);
            } else {
                assert(after[i] == before[i - 1] && after[j] == before[j - 1]);
            }
        }
        assert forall|e: Entry| after.contains(e) <==> (before.contains(e) || e == plugin@) by {
            if after.contains(e) {
                let k = choose|k: int| 0 <= k < after.len() && after[k] == e;
                if k < at {
                    assert(before[k] == e);
                } else if k > at {
                    assert(before[k - 1] == e);
                }
            }
            if before.contains(e) {
                let k = choose|k: int| 0 <= k < before.len() && before[k] == e;
                if k < at {
                    assert(after[k] == e);
                } else {
                    assert(after[k + 1] == e);
                }
            }
            if e == plugin@ {
                assert(after[at as int] == e);
            }
        }
    }
}

/// What each found plugin stands for, place by place.
pub open spec fn options(found: Seq<Option<PluginInfo>>) -> Seq<Option<Entry>> {
    Seq::new(
        found.len(),
        |i: int|
            match found[i] {
                Some(plugin) => Some(plugin@),
                None => None,
            },
    )
}

/// The catalog of the plugins that were found: each entry once, in order,
/// and nothing for the places where none was found.
pub fn collect(found: &Vec<Option<PluginInfo>>) -> (catalog: Vec<PluginInfo>)
    ensures
        is_catalog(entries(catalog@)),
        forall|e: Entry| entries(catalog@).contains(e) <==> options(found@).contains(Some(e)),
{
    let mut catalog: Vec<PluginInfo> = Vec::new();
    let mut at: usize = 0;
    while at < found.len()
        invariant
            at <= found.len(),
            is_catalog(entries(catalog@)),
            forall|e: Entry|
                entries(catalog@).contains(e) <==> options(found@).subrange(0, at as int).contains(
                    Some(e),
                ),
        decreases found.len() - at,
    {
        let ghost seen = options(found@).subrange(0, at as int);
        let ghost next = options(found@).subrange(0, at + 1);
        proof {
            assert(next == seen.push(options(found@)[at as int]));
        }
        match &found[at] {
            Some(plugin) => {
                insert(&mut catalog, plugin.clone());
            },
            None => {},
        }
        proof {
            assert forall|e: Entry| entries(catalog@).contains(e) <==> next.contains(Some(e)) by {
                if next.contains(Some(e)) {
                    let k = choose|k: int| 0 <= k < next.len() && next[k] == Some(e);
                    if k < at {
                        assert(seen[k] == Some(e));
                    }
                }
                if seen.contains(Some(e)) {
                    let k = choose|k: int| 0 <= k < seen.len() && seen[k] == Some(e);
                    assert(next[k] == Some(e));
                }
                if options(found@)[at as int] == Some(e) {
                    assert(next[at as int] == Some(e));
                }
            }
        }
        at += 1;
    }
    assert(options(found@).subrange(0, at as int) == options(found@));
    catalog
}

} // verus!
