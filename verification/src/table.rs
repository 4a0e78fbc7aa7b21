//! The table of a book's assets, keyed by the link that led to each.

use vstd::prelude::*;
use crate::asset::{asset_views, Asset, AssetView};
use crate::text::same_text;

verus! {

/// Whether no two assets share a link.
pub open spec fn distinct_links(es: Seq<AssetView>) -> bool {
    forall|i: int, j: int|
        0 <= i < j < es.len() ==> (#[trigger] es[i]).original_link != (
        #[trigger] es[j]).original_link
}

/// The asset that `link` led to, if there is one.
pub open spec fn lookup(es: Seq<AssetView>, link: Seq<char>) -> Option<AssetView>
    decreases es.len(),
{
    if es.len() == 0 {
        None
    } else if es[0].original_link == link {
        Some(es[0])
    } else {
        lookup(es.drop_first(), link)
    }
}

/// The assets with `a` in the place of the asset of the same link, or at the
/// end where there is none.
pub open spec fn put(es: Seq<AssetView>, a: AssetView) -> Seq<AssetView>
    decreases es.len(),
{
    if es.len() == 0 {
        seq![a]
    } else if es[0].original_link == a.original_link {
        seq![a] + es.drop_first()
    } else {
        seq![es[0]] + put(es.drop_first(), a)
    }
}

/// The assets with `a` at the end, unless its link is taken.
pub open spec fn put_new(es: Seq<AssetView>, a: AssetView) -> Seq<AssetView> {
    if lookup(es, a.original_link) is Some {
        es
    } else {
        es.push(a)
    }
}

/// The asset at `i` is the one found when no earlier asset has the link.
pub proof fn lemma_lookup_at(es: Seq<AssetView>, link: Seq<char>, i: int)
    requires
        0 <= i < es.len(),
        es[i].original_link == link,
        forall|k: int| 0 <= k < i ==> (#[trigger] es[k]).original_link != link,
    ensures
        lookup(es, link) == Some(es[i]),
    decreases es.len(),
{
    if i > 0 {
        let rest = es.drop_first();
        assert(es[0].original_link != link);
        assert forall|k: int| 0 <= k < i - 1 implies (#[trigger] rest[k]).original_link
            != link by {
            assert(rest[k] == es[k + 1]);
        }
        lemma_lookup_at(rest, link, i - 1);
    }
}

/// Nothing is found when no asset has the link.
pub proof fn lemma_lookup_none(es: Seq<AssetView>, link: Seq<char>)
    requires
        forall|k: int| 0 <= k < es.len() ==> (#[trigger] es[k]).original_link != link,
    ensures
        lookup(es, link) is None,
    decreases es.len(),
{
    if es.len() > 0 {
        let rest = es.drop_first();
        assert(es[0].original_link != link);
        assert forall|k: int| 0 <= k < rest.len() implies (#[trigger] rest[k]).original_link
            != link by {
            assert(rest[k] == es[k + 1]);
        }
        lemma_lookup_none(rest, link);
    }
}

/// Putting an asset whose link the asset at `i` has, and no earlier one,
/// replaces that asset.
pub proof fn lemma_put_at(es: Seq<AssetView>, a: AssetView, i: int)
    requires
        0 <= i < es.len(),
        es[i].original_link == a.original_link,
        forall|k: int| 0 <= k < i ==> (#[trigger] es[k]).original_link != a.original_link,
    ensures
        put(es, a) == es.update(i, a),
    decreases es.len(),
{
    if i == 0 {
        assert(seq![a] + es.drop_first() =~= es.update(0, a));
    } else {
        let rest = es.drop_first();
        assert(es[0].original_link != a.original_link);
        assert forall|k: int| 0 <= k < i - 1 implies (#[trigger] rest[k]).original_link
            != a.original_link by {
            assert(rest[k] == es[k + 1]);
        }
        lemma_put_at(rest, a, i - 1);
        assert(seq![es[0]] + rest.update(i - 1, a) =~= es.update(i, a));
    }
}

/// Putting an asset whose link no asset has adds it at the end.
pub proof fn lemma_put_none(es: Seq<AssetView>, a: AssetView)
    requires
        forall|k: int| 0 <= k < es.len() ==> (#[trigger] es[k]).original_link != a.original_link,
    ensures
        put(es, a) == es.push(a),
    decreases es.len(),
{
    if es.len() == 0 {
        assert(seq![a] =~= es.push(a));
    } else {
        let rest = es.drop_first();
        assert(es[0].original_link != a.original_link);
        assert forall|k: int| 0 <= k < rest.len() implies (#[trigger] rest[k]).original_link
            != a.original_link by {
            assert(rest[k] == es[k + 1]);
        }
        lemma_put_none(rest, a);
        assert(seq![es[0]] + rest.push(a) =~= es.push(a));
    }
}

/// The assets of a book, each under the link that led to it. No two
/// entries share a link, and the entries keep the order in which their
/// links were first met.
#[derive(Debug)]
pub struct AssetTable {
    entries: Vec<Asset>,
}

impl View for AssetTable {
    type V = Seq<AssetView>;

    closed spec fn view(&self) -> Seq<AssetView> {
        asset_views(self.entries@)
    }
}

impl AssetTable {
    #[verifier::type_invariant]
    spec fn links_are_distinct(self) -> bool {
        distinct_links(asset_views(self.entries@))
    }

    /// An empty table.
    pub fn new() -> (r: AssetTable)
        ensures
            r@.len() == 0,
    {
        AssetTable { entries: Vec::new() }
    }

    /// How many assets the table holds.
    pub fn len(&self) -> (r: usize)
        ensures
            r == self@.len(),
    {
        self.entries.len()
    }

    /// Whether the table holds nothing.
    pub fn is_empty(&self) -> (r: bool)
        ensures
            r == (self@.len() == 0),
    {
        self.entries.len() == 0
    }

    /// The assets, in the order in which their links were first met.
    pub fn assets(&self) -> (r: &Vec<Asset>)
        ensures
            asset_views(r@) == self@,
            distinct_links(self@),
    {
        proof {
            use_type_invariant(self);
        }
        &self.entries
    }

    /// Hands out the entries and leaves the table empty.
    fn take_entries(&mut self) -> (r: Vec<Asset>)
        ensures
            asset_views(r@) == old(self)@,
            distinct_links(asset_views(r@)),
            final(self)@.len() == 0,
    {
        proof {
            use_type_invariant(&*self);
        }
        let mut taken = AssetTable { entries: Vec::new() };
        std::mem::swap(self, &mut taken);
        taken.entries
    }

    /// Where the asset of `link` stands, if there is one.
    fn position(&self, link: &str) -> (r: Option<usize>)
        ensures
            distinct_links(self@),
            match r {
                Some(i) => i < self@.len() && i < self.entries@.len() && self@[i as int]
                    == self.entries@[i as int]@ && self@[i as int].original_link == link@
                    && forall|k: int|
                    0 <= k < i ==> (#[trigger] self@[k]).original_link != link@,
                None => forall|k: int|
                    0 <= k < self@.len() ==> (#[trigger] self@[k]).original_link != link@,
            },
    {
        proof {
            use_type_invariant(self);
        }
        let mut i: usize = 0;
        while i < self.entries.len()
            invariant
                i <= self.entries.len(),
                distinct_links(asset_views(self.entries@)),
                forall|k: int|
                    0 <= k < i ==> (#[trigger] asset_views(self.entries@)[k]).original_link
                        != link@,
            decreases self.entries.len() - i,
        {
            assert(asset_views(self.entries@)[i as int] == self.entries@[i as int]@);
            if same_text(self.entries[i].original_link.as_str(), link) {
                return Some(i);
            }
            i = i + 1;
        }
        None
    }

    /// The asset that `link` led to, if the table holds one.
    pub fn get(&self, link: &str) -> (r: Option<&Asset>)
        ensures
            match r {
                Some(a) => lookup(self@, link@) == Some(a@),
                None => lookup(self@, link@) is None,
            },
    {
        match self.position(link) {
            Some(i) => {
                proof {
                    lemma_lookup_at(self@, link@, i as int);
                }
                Some(&self.entries[i])
            },
            None => {
                proof {
                    lemma_lookup_none(self@, link@);
                }
                None
            },
        }
    }

    /// Whether the table holds an asset for `link`.
    pub fn contains_key(&self, link: &str) -> (r: bool)
        ensures
            r == lookup(self@, link@) is Some,
    {
        self.get(link).is_some()
    }

    /// Puts `asset` under its link: in the place of the asset that was
    /// there, or at the end.
    pub fn insert(&mut self, asset: Asset)
        ensures
            final(self)@ == put(old(self)@, asset@),
    {
        proof {
            use_type_invariant(&*self);
        }
        match self.position(asset.original_link.as_str()) {
            Some(i) => {
                proof {
                    lemma_put_at(self@, asset@, i as int);
                }
                let mut entries = self.take_entries();
                let ghost before = asset_views(entries@);
                entries.set(i, asset);
                let ghost now = asset_views(entries@);
                assert(now =~= before.update(i as int, asset@));
                assert(distinct_links(now)) by {
                    assert forall|x: int, y: int| 0 <= x < y < now.len() implies (
                    #[trigger] now[x]).original_link != (#[trigger] now[y]).original_link by {
                        assert(before[x].original_link != before[y].original_link);
                    }
                }
                *self = AssetTable { entries };
            },
            None => {
                proof {
                    lemma_put_none(self@, asset@);
                }
                let mut entries = self.take_entries();
                let ghost before = asset_views(entries@);
                entries.push(asset);
                let ghost now = asset_views(entries@);
                assert(now =~= before.push(asset@));
                assert(distinct_links(now)) by {
                    assert forall|x: int, y: int| 0 <= x < y < now.len() implies (
                    #[trigger] now[x]).original_link != (#[trigger] now[y]).original_link by {
                        if y < before.len() {
                            assert(before[x].original_link != before[y].original_link);
                        } else {
                            assert(before[x].original_link != asset@.original_link);
                        }
                    }
                }
                *self = AssetTable { entries };
            },
        }
    }

    /// Puts `asset` at the end unless its link is taken; says whether it
    /// was put.
    pub fn insert_if_vacant(&mut self, asset: Asset) -> (r: bool)
        ensures
            final(self)@ == put_new(old(self)@, asset@),
            r == lookup(old(self)@, asset@.original_link) is None,
    {
        proof {
            use_type_invariant(&*self);
        }
        match self.position(asset.original_link.as_str()) {
            Some(i) => {
                proof {
                    lemma_lookup_at(self@, asset@.original_link, i as int);
                }
                false
            },
            None => {
                proof {
                    lemma_lookup_none(self@, asset@.original_link);
                }
                let mut entries = self.take_entries();
                let ghost before = asset_views(entries@);
                entries.push(asset);
                let ghost now = asset_views(entries@);
                assert(now =~= before.push(asset@));
                assert(distinct_links(now)) by {
                    assert forall|x: int, y: int| 0 <= x < y < now.len() implies (
                    #[trigger] now[x]).original_link != (#[trigger] now[y]).original_link by {
                        if y < before.len() {
                            assert(before[x].original_link != before[y].original_link);
                        } else {
                            assert(before[x].original_link != asset@.original_link);
                        }
                    }
                }
                *self = AssetTable { entries };
                true
            },
        }
    }
}

} // verus!
