//! The region catalog: an ordered sequence of regions, each with its
//! hostnames, its stability and its group.
use vstd::prelude::*;
use vstd::string::*;
use crate::text::{same_text, to_chars};

verus! {

/// Which kinds of hostnames the gatekeep policy affects.
#[derive(Clone, Copy, Debug, PartialEq, Eq, Structural)]
pub enum BlockMode {
    /// Service and ping endpoints.
    Both,
    /// Ping endpoints only.
    OnlyPing,
    /// Service endpoints only.
    OnlyService,
}

/// One region of the catalog. The first hostname is the service endpoint,
/// the second, where there is one, the ping endpoint.
#[derive(Clone, Debug)]
pub struct Region {
    pub id: String,
    pub group: String,
    pub hosts: Vec<String>,
    pub stable: bool,
}

/// A region as plain values.
pub ghost struct RegionView {
    pub id: Seq<char>,
    pub group: Seq<char>,
    pub hosts: Seq<Seq<char>>,
    pub stable: bool,
}

/// The texts of a sequence of strings.
pub open spec fn texts(list: Seq<String>) -> Seq<Seq<char>> {
    list.map_values(|s: String| s@)
}

impl View for Region {
    type V = RegionView;

    open spec fn view(&self) -> RegionView {
        RegionView { id: self.id@, group: self.group@, hosts: texts(self.hosts@), stable: self.stable }
    }
}

/// A catalog as plain values, in catalog order.
pub open spec fn catalog_view(regions: Seq<Region>) -> Seq<RegionView> {
    regions.map_values(|r: Region| r@)
}

/// The text `ping`, in any mix of upper and lower case, stands in `host` at
/// offset `i`.
pub open spec fn ping_at(host: Seq<char>, i: int) -> bool {
    &&& 0 <= i
    &&& i + 4 <= host.len()
    &&& (host[i] == 'p' || host[i] == 'P')
    &&& (host[i + 1] == 'i' || host[i + 1] == 'I')
    &&& (host[i + 2] == 'n' || host[i + 2] == 'N')
    &&& (host[i + 3] == 'g' || host[i + 3] == 'G')
}

/// `host` is a ping endpoint: its name holds `ping`, whatever the case. Every
/// other hostname is a service endpoint.
pub open spec fn is_ping(host: Seq<char>) -> bool {
    exists|i: int| ping_at(host, i)
}

/// `i` is the first position in the catalog of a region with identifier `id`.
pub open spec fn is_first_with_id(catalog: Seq<RegionView>, id: Seq<char>, i: int) -> bool {
    &&& 0 <= i < catalog.len()
    &&& catalog[i].id == id
    &&& forall|t: int| 0 <= t < i ==> catalog[t].id != id
}

/// The position of the region with identifier `id`, if the catalog has one.
pub open spec fn region_index(catalog: Seq<RegionView>, id: Seq<char>) -> Option<int> {
    if exists|i: int| is_first_with_id(catalog, id, i) {
        Some(choose|i: int| is_first_with_id(catalog, id, i))
    } else {
        None
    }
}

/// `j` is the first position in the catalog of a stable region of `group`.
pub open spec fn is_first_stable_in(catalog: Seq<RegionView>, group: Seq<char>, j: int) -> bool {
    &&& 0 <= j < catalog.len()
    &&& catalog[j].stable
    &&& catalog[j].group == group
    &&& forall|t: int| 0 <= t < j ==> !(catalog[t].stable && catalog[t].group == group)
}

/// The position of the first stable region of `group`, if there is one.
pub open spec fn stable_index(catalog: Seq<RegionView>, group: Seq<char>) -> Option<int> {
    if exists|j: int| is_first_stable_in(catalog, group, j) {
        Some(choose|j: int| is_first_stable_in(catalog, group, j))
    } else {
        None
    }
}

/// The first position with a given identifier is the one `region_index` names.
pub proof fn lemma_region_index_some(catalog: Seq<RegionView>, id: Seq<char>, i: int)
    requires
        is_first_with_id(catalog, id, i),
    ensures
        region_index(catalog, id) == Some(i),
{
    let c = choose|c: int| is_first_with_id(catalog, id, c);
    assert(is_first_with_id(catalog, id, c));
    if c < i {
        assert(catalog[c].id != id);
    }
    if i < c {
        assert(catalog[i].id != id);
    }
}

/// The first stable position of a group is the one `stable_index` names.
pub proof fn lemma_stable_index_some(catalog: Seq<RegionView>, group: Seq<char>, j: int)
    requires
        is_first_stable_in(catalog, group, j),
    ensures
        stable_index(catalog, group) == Some(j),
{
    let c = choose|c: int| is_first_stable_in(catalog, group, c);
    assert(is_first_stable_in(catalog, group, c));
    if c < j {
        assert(!(catalog[c].stable && catalog[c].group == group));
    }
    if j < c {
        assert(!(catalog[j].stable && catalog[j].group == group));
    }
}

/// Whether `host` names a ping endpoint.
pub fn is_ping_host(host: &str) -> (ping: bool)
    ensures
        ping == is_ping(host@),
{
    let h: Vec<char> = to_chars(host);
    let n: usize = h.len();
    if n < 4 {
        return false;
    }
    let mut i: usize = 0;
    while i <= n - 4
        invariant
            n == h.len(),
            n >= 4,
            h@ == host@,
            forall|t: int| 0 <= t < i ==> !ping_at(host@, t),
        decreases n - i,
    {
        if (h[i] == 'p' || h[i] == 'P') && (h[i + 1] == 'i' || h[i + 1] == 'I') && (h[i + 2] == 'n'
            || h[i + 2] == 'N') && (h[i + 3] == 'g' || h[i + 3] == 'G') {
            assert(ping_at(host@, i as int));
            return true;
        }
        i += 1;
    }
    false
}

/// The position of the region with identifier `id`.
pub fn find_region(regions: &Vec<Region>, id: &str) -> (found: Option<usize>)
    ensures
        found is None <==> region_index(catalog_view(regions@), id@) is None,
        found matches Some(i) ==> region_index(catalog_view(regions@), id@) == Some(i as int)
            && is_first_with_id(catalog_view(regions@), id@, i as int),
{
    let ghost catalog = catalog_view(regions@);
    let n: usize = regions.len();
    let mut i: usize = 0;
    while i < n
        invariant
            n == regions.len(),
            catalog == catalog_view(regions@),
            i <= n,
            forall|t: int| 0 <= t < i ==> catalog[t].id != id@,
        decreases n - i,
    {
        if same_text(regions[i].id.as_str(), id) {
            proof {
                lemma_region_index_some(catalog, id@, i as int);
            }
            return Some(i);
        }
        i += 1;
    }
    None
}

/// The position of the first stable region of `group`.
pub fn find_stable_in_group(regions: &Vec<Region>, group: &str) -> (found: Option<usize>)
    ensures
        found is None <==> stable_index(catalog_view(regions@), group@) is None,
        found matches Some(j) ==> stable_index(catalog_view(regions@), group@) == Some(j as int)
            && is_first_stable_in(catalog_view(regions@), group@, j as int),
{
    let ghost catalog = catalog_view(regions@);
    let n: usize = regions.len();
    let mut j: usize = 0;
    while j < n
        invariant
            n == regions.len(),
            catalog == catalog_view(regions@),
            j <= n,
            forall|t: int| 0 <= t < j ==> !(catalog[t].stable && catalog[t].group == group@),
        decreases n - j,
    {
        if regions[j].stable && same_text(regions[j].group.as_str(), group) {
            proof {
                lemma_stable_index_some(catalog, group@, j as int);
            }
            return Some(j);
        }
        j += 1;
    }
    None
}

} // verus!
