//! The two inputs of a policy as sets with an order: the catalog, in which no
//! two regions share an identifier, and the selection, which names no region
//! twice. Both keep the order of insertion.
use vstd::prelude::*;
use vstd::string::*;
use crate::policy::contains_text;
use crate::region::{
    catalog_view, find_region, is_first_with_id, lemma_region_index_some, region_index, texts,
    Region, RegionView,
};

verus! {

/// No two regions of `catalog` share an identifier.
pub open spec fn distinct_ids(catalog: Seq<RegionView>) -> bool {
    forall|i: int, j: int| 0 <= i < j < catalog.len() ==> catalog[i].id != catalog[j].id
}

/// The region catalog: regions with distinct identifiers, in the order in
/// which they were inserted.
pub struct Catalog {
    regions: Vec<Region>,
}

impl View for Catalog {
    type V = Seq<RegionView>;

    closed spec fn view(&self) -> Seq<RegionView> {
        catalog_view(self.regions@)
    }
}

impl Catalog {
    #[verifier::type_invariant]
    spec fn inv(self) -> bool {
        distinct_ids(catalog_view(self.regions@))
    }

    /// The empty catalog.
    pub fn new() -> (catalog: Self)
        ensures
            catalog@ == Seq::<RegionView>::empty(),
    {
        let catalog = Catalog { regions: Vec::new() };
        assert(catalog_view(catalog.regions@) =~= Seq::<RegionView>::empty());
        catalog
    }

    /// Appends `region` unless the catalog holds a region with its
    /// identifier already; says whether it was appended.
    pub fn insert(&mut self, region: Region) -> (added: bool)
        ensures
            added == (region_index(old(self)@, region@.id) is None),
            added ==> final(self)@ == old(self)@.push(region@),
            !added ==> final(self)@ == old(self)@,
    {
        proof {
            use_type_invariant(&*self);
        }
        let ghost before = catalog_view(self.regions@);
        match find_region(&self.regions, region.id.as_str()) {
            Some(_) => false,
            None => {
                let ghost added_view = region@;
                assert forall|t: int| 0 <= t < before.len() implies before[t].id
                    != added_view.id by {
                    if before[t].id == added_view.id {
                        lemma_some_first(before, added_view.id, t);
                    }
                }
                let mut taken: Catalog = Catalog::new();
                core::mem::swap(self, &mut taken);
                let mut regions: Vec<Region> = taken.regions;
                regions.push(region);
                assert(catalog_view(regions@) =~= before.push(added_view));
                *self = Catalog { regions };
                true
            },
        }
    }

    /// The regions, in catalog order.
    pub fn regions(&self) -> (regions: &Vec<Region>)
        ensures
            catalog_view(regions@) == self@,
            distinct_ids(self@),
    {
        proof {
            use_type_invariant(self);
        }
        &self.regions
    }

    /// The number of regions.
    pub fn len(&self) -> (n: usize)
        ensures
            n == self@.len(),
    {
        self.regions.len()
    }
}

/// A catalog that holds `id` at all holds it at a first position.
proof fn lemma_some_first(catalog: Seq<RegionView>, id: Seq<char>, t: int)
    requires
        0 <= t < catalog.len(),
        catalog[t].id == id,
    ensures
        region_index(catalog, id) is Some,
    decreases t,
{
    if exists|s: int| 0 <= s < t && catalog[s].id == id {
        let s = choose|s: int| 0 <= s < t && catalog[s].id == id;
        lemma_some_first(catalog, id, s);
    } else {
        assert(is_first_with_id(catalog, id, t));
    }
}

/// In a catalog of distinct identifiers, a region is found at its own
/// position and nowhere else.
pub proof fn law_distinct_ids_index(catalog: Seq<RegionView>, i: int)
    requires
        distinct_ids(catalog),
        0 <= i < catalog.len(),
    ensures
        region_index(catalog, catalog[i].id) == Some(i),
{
    assert(is_first_with_id(catalog, catalog[i].id, i));
    lemma_region_index_some(catalog, catalog[i].id, i);
}

/// The selection: region identifiers, none of them twice, in the order in
/// which they were chosen.
pub struct Selection {
    ids: Vec<String>,
}

impl View for Selection {
    type V = Seq<Seq<char>>;

    closed spec fn view(&self) -> Seq<Seq<char>> {
        texts(self.ids@)
    }
}

impl Selection {
    #[verifier::type_invariant]
    spec fn inv(self) -> bool {
        texts(self.ids@).no_duplicates()
    }

    /// The empty selection.
    pub fn new() -> (selection: Self)
        ensures
            selection@ == Seq::<Seq<char>>::empty(),
    {
        let selection = Selection { ids: Vec::new() };
        assert(texts(selection.ids@) =~= Seq::<Seq<char>>::empty());
        selection
    }

    /// Adds `id` unless it is selected already; says whether it was added.
    pub fn insert(&mut self, id: String) -> (added: bool)
        ensures
            added == !old(self)@.contains(id@),
            added ==> final(self)@ == old(self)@.push(id@),
            !added ==> final(self)@ == old(self)@,
    {
        proof {
            use_type_invariant(&*self);
        }
        let ghost before = texts(self.ids@);
        if contains_text(&self.ids, id.as_str()) {
            false
        } else {
            let ghost text = id@;
            let mut taken: Selection = Selection::new();
            core::mem::swap(self, &mut taken);
            let mut ids: Vec<String> = taken.ids;
            ids.push(id);
            assert(texts(ids@) =~= before.push(text));
            *self = Selection { ids };
            true
        }
    }

    /// The selected identifiers, in order.
    pub fn ids(&self) -> (ids: &Vec<String>)
        ensures
            texts(ids@) == self@,
            self@.no_duplicates(),
    {
        proof {
            use_type_invariant(self);
        }
        &self.ids
    }

    /// The number of selected regions.
    pub fn len(&self) -> (n: usize)
        ensures
            n == self@.len(),
    {
        self.ids.len()
    }

    /// Whether `id` is selected.
    pub fn contains(&self, id: &str) -> (found: bool)
        ensures
            found == self@.contains(id@),
    {
        contains_text(&self.ids, id)
    }
}

} // verus!
