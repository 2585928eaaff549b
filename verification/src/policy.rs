//! The redirect policies: which regions a selection allows, and the section
//! content that blocks, allows or redirects each hostname of the catalog.
use vstd::prelude::*;
use vstd::string::*;
use crate::error::HostsError;
use crate::region::{
    catalog_view, find_region, find_stable_in_group, is_ping, is_ping_host, region_index,
    stable_index, texts, BlockMode, Region, RegionView,
};
use crate::section::newline;
use crate::text::same_text;

verus! {

/// `id` names a stable region of the catalog.
pub open spec fn names_stable(catalog: Seq<RegionView>, id: Seq<char>) -> bool {
    region_index(catalog, id) matches Some(i) && catalog[i].stable
}

/// The selection names at least one stable region of the catalog.
pub open spec fn any_stable(catalog: Seq<RegionView>, selected: Seq<Seq<char>>) -> bool {
    exists|k: int| 0 <= k < selected.len() && names_stable(catalog, #[trigger] selected[k])
}

/// The stable region that stands in for the unstable region `id`: the first
/// stable region of the catalog in the same group. A stable region, one that
/// the catalog does not hold, and one without a stable sibling have none.
pub open spec fn fallback_of(catalog: Seq<RegionView>, id: Seq<char>) -> Option<Seq<char>> {
    match region_index(catalog, id) {
        None => None,
        Some(i) => if catalog[i].stable {
            None
        } else {
            match stable_index(catalog, catalog[i].group) {
                None => None,
                Some(j) => Some(catalog[j].id),
            }
        },
    }
}

/// `alt` stands in for some region of the selection.
pub open spec fn merged(catalog: Seq<RegionView>, selected: Seq<Seq<char>>, alt: Seq<char>) -> bool {
    exists|k: int| 0 <= k < selected.len() && fallback_of(catalog, #[trigger] selected[k]) == Some(alt)
}

/// The effective allow-set: the selection and, where merging is on and the
/// selection names no stable region, the fallback of each selected region.
pub open spec fn allow_set(
    catalog: Seq<RegionView>,
    selected: Seq<Seq<char>>,
    merge_unstable: bool,
) -> Set<Seq<char>> {
    Set::new(
        |id: Seq<char>|
            selected.contains(id) || (merge_unstable && !any_stable(catalog, selected) && merged(
                catalog,
                selected,
                id,
            )),
    )
}

/// Whether `list` holds the text `id`.
pub fn contains_text(list: &Vec<String>, id: &str) -> (found: bool)
    ensures
        found == texts(list@).contains(id@),
{
    let n: usize = list.len();
    let mut k: usize = 0;
    while k < n
        invariant
            n == list.len(),
            k <= n,
            forall|t: int| 0 <= t < k ==> texts(list@)[t] != id@,
        decreases n - k,
    {
        if same_text(list[k].as_str(), id) {
            assert(texts(list@)[k as int] == id@);
            return true;
        }
        k += 1;
    }
    false
}

/// Whether the selection names a stable region of the catalog.
pub fn any_stable_selected(regions: &Vec<Region>, selected: &Vec<String>) -> (any: bool)
    ensures
        any == any_stable(catalog_view(regions@), texts(selected@)),
{
    let ghost catalog = catalog_view(regions@);
    let ghost sel = texts(selected@);
    let n: usize = selected.len();
    let mut k: usize = 0;
    while k < n
        invariant
            n == selected.len(),
            catalog == catalog_view(regions@),
            sel == texts(selected@),
            k <= n,
            forall|t: int| 0 <= t < k ==> !names_stable(catalog, #[trigger] sel[t]),
        decreases n - k,
    {
        match find_region(regions, selected[k].as_str()) {
            None => {},
            Some(i) => {
                if regions[i].stable {
                    assert(names_stable(catalog, sel[k as int]));
                    return true;
                }
            },
        }
        k += 1;
    }
    false
}

/// The effective allow-set of a selection, as a list of region identifiers.
pub fn effective_allow_set(
    regions: &Vec<Region>,
    selected: &Vec<String>,
    merge_unstable: bool,
) -> (allowed: Vec<String>)
    ensures
        forall|id: Seq<char>|
            texts(allowed@).contains(id) <==> allow_set(
                catalog_view(regions@),
                texts(selected@),
                merge_unstable,
            ).contains(id),
{
    let ghost catalog = catalog_view(regions@);
    let ghost sel = texts(selected@);
    let n: usize = selected.len();
    let mut allowed: Vec<String> = Vec::new();
    let mut k: usize = 0;
    while k < n
        invariant
            n == selected.len(),
            sel == texts(selected@),
            k <= n,
            texts(allowed@) == sel.subrange(0, k as int),
        decreases n - k,
    {
        let ghost before = texts(allowed@);
        allowed.push(selected[k].clone());
        assert(texts(allowed@) =~= before.push(sel[k as int]));
        assert(texts(allowed@) =~= sel.subrange(0, k + 1));
        k += 1;
    }
    assert(texts(allowed@) =~= sel);
    if !merge_unstable || any_stable_selected(regions, selected) {
        return allowed;
    }
    k = 0;
    while k < n
        invariant
            n == selected.len(),
            catalog == catalog_view(regions@),
            sel == texts(selected@),
            k <= n,
            forall|id: Seq<char>|
                texts(allowed@).contains(id) <==> (sel.contains(id) || merged(
                    catalog,
                    sel.subrange(0, k as int),
                    id,
                )),
        decreases n - k,
    {
        let ghost before = texts(allowed@);
        let ghost done = sel.subrange(0, k as int);
        let ghost next = sel.subrange(0, k + 1);
        assert(next.drop_last() =~= done);
        assert(next.last() == sel[k as int]);
        assert forall|id: Seq<char>| merged(catalog, next, id) <==> (merged(catalog, done, id)
            || fallback_of(catalog, sel[k as int]) == Some(id)) by {
            if merged(catalog, next, id) {
                let t = choose|t: int| 0 <= t < next.len() && fallback_of(catalog, #[trigger] next[t]) == Some(id);
                if t < k {
                    assert(done[t] == next[t]);
                }
            }
            if merged(catalog, done, id) {
                let t = choose|t: int| 0 <= t < done.len() && fallback_of(catalog, #[trigger] done[t]) == Some(id);
                assert(next[t] == done[t]);
            }
            if fallback_of(catalog, sel[k as int]) == Some(id) {
                assert(next[k as int] == sel[k as int]);
            }
        }
        assert(sel[k as int] == selected@[k as int]@);
        match find_region(regions, selected[k].as_str()) {
            None => {},
            Some(i) => {
                assert(catalog[i as int] == regions@[i as int]@);
                if !regions[i].stable {
                    match find_stable_in_group(regions, regions[i].group.as_str()) {
                        None => {},
                        Some(j) => {
                            assert(catalog[j as int] == regions@[j as int]@);
                            allowed.push(regions[j].id.clone());
                            assert(texts(allowed@) =~= before.push(catalog[j as int].id));
                        },
                    }
                }
            },
        }
        proof {
            let after = texts(allowed@);
            match fallback_of(catalog, sel[k as int]) {
                None => {
                    assert(after == before);
                },
                Some(alt) => {
                    assert(after == before.push(alt));
                    assert forall|id: Seq<char>| after.contains(id) <==> (before.contains(id) || alt
                        == id) by {
                        if after.contains(id) {
                            let t = choose|t: int| 0 <= t < after.len() && after[t] == id;
                            if t < before.len() {
                                assert(before[t] == id);
                            }
                        }
                        if before.contains(id) {
                            let t = choose|t: int| 0 <= t < before.len() && before[t] == id;
                            assert(after[t] == id);
                        }
                        if alt == id {
                            assert(after[before.len() as int] == id);
                        }
                    }
                },
            }
            assert forall|id: Seq<char>| after.contains(id) <==> (sel.contains(id) || merged(
                catalog,
                next,
                id,
            )) by {
                assert(before.contains(id) <==> (sel.contains(id) || merged(catalog, done, id)));
                assert(merged(catalog, next, id) <==> (merged(catalog, done, id) || fallback_of(
                    catalog,
                    sel[k as int],
                ) == Some(id)));
            }
        }
        k += 1;
    }
    assert(sel.subrange(0, n as int) =~= sel);
    assert forall|id: Seq<char>| texts(allowed@).contains(id) <==> allow_set(
        catalog,
        sel,
        merge_unstable,
    ).contains(id) by {
        assert(texts(allowed@).contains(id) <==> (sel.contains(id) || merged(catalog, sel, id)));
    }
    allowed
}

/// Whether the gatekeep policy in `mode` has an entry for `host`.
pub open spec fn affected(mode: BlockMode, host: Seq<char>) -> bool {
    match mode {
        BlockMode::Both => true,
        BlockMode::OnlyPing => is_ping(host),
        BlockMode::OnlyService => !is_ping(host),
    }
}

/// The gatekeep entry for `host`: commented out where its region is allowed,
/// routed to the null address where it is not.
pub open spec fn gatekeep_line(host: Seq<char>, allow: bool) -> Seq<char> {
    (if allow {
        "#         "@
    } else {
        "0.0.0.0   "@
    }) + host + newline()
}

/// The gatekeep entries for the hostnames of one region, in order.
pub open spec fn gatekeep_hosts(hosts: Seq<Seq<char>>, allow: bool, mode: BlockMode) -> Seq<char>
    decreases hosts.len(),
{
    if hosts.len() == 0 {
        Seq::empty()
    } else {
        gatekeep_hosts(hosts.drop_last(), allow, mode) + (if affected(mode, hosts.last()) {
            gatekeep_line(hosts.last(), allow)
        } else {
            Seq::empty()
        })
    }
}

/// The gatekeep entries for the regions of `catalog`, in catalog order, each
/// region followed by a blank line.
pub open spec fn gatekeep_regions(
    catalog: Seq<RegionView>,
    allow: Set<Seq<char>>,
    mode: BlockMode,
) -> Seq<char>
    decreases catalog.len(),
{
    if catalog.len() == 0 {
        Seq::empty()
    } else {
        gatekeep_regions(catalog.drop_last(), allow, mode) + gatekeep_hosts(
            catalog.last().hosts,
            allow.contains(catalog.last().id),
            mode,
        ) + newline()
    }
}

/// The comment lines that open a gatekeep section.
pub open spec fn gatekeep_intro(contact: Seq<char>) -> Seq<char> {
    "# Edited by Make Your Choice (DbD Server Selector)\n"@
        + "# Unselected servers are blocked (Gatekeep Mode); selected servers are commented out.\n"@
        + "# Need help? Discord: "@ + contact + newline() + newline()
}

/// The section content of the gatekeep policy.
pub open spec fn gatekeep_text(
    contact: Seq<char>,
    catalog: Seq<RegionView>,
    selected: Seq<Seq<char>>,
    mode: BlockMode,
    merge_unstable: bool,
) -> Seq<char> {
    gatekeep_intro(contact) + gatekeep_regions(
        catalog,
        allow_set(catalog, selected, merge_unstable),
        mode,
    )
}

/// The redirect entry for `host`: the ping address for a ping endpoint, the
/// service address for any other.
pub open spec fn redirect_line(host: Seq<char>, service_ip: Seq<char>, ping_ip: Seq<char>) -> Seq<char> {
    (if is_ping(host) {
        ping_ip
    } else {
        service_ip
    }) + seq![' '] + host + newline()
}

/// The redirect entries for the hostnames of one region, in order.
pub open spec fn redirect_hosts(
    hosts: Seq<Seq<char>>,
    service_ip: Seq<char>,
    ping_ip: Seq<char>,
) -> Seq<char>
    decreases hosts.len(),
{
    if hosts.len() == 0 {
        Seq::empty()
    } else {
        redirect_hosts(hosts.drop_last(), service_ip, ping_ip) + redirect_line(
            hosts.last(),
            service_ip,
            ping_ip,
        )
    }
}

/// The redirect entries for the regions of `catalog`, in catalog order, each
/// region followed by a blank line.
pub open spec fn redirect_regions(
    catalog: Seq<RegionView>,
    service_ip: Seq<char>,
    ping_ip: Seq<char>,
) -> Seq<char>
    decreases catalog.len(),
{
    if catalog.len() == 0 {
        Seq::empty()
    } else {
        redirect_regions(catalog.drop_last(), service_ip, ping_ip) + redirect_hosts(
            catalog.last().hosts,
            service_ip,
            ping_ip,
        ) + newline()
    }
}

/// The comment lines that open a redirect section.
pub open spec fn redirect_intro(contact: Seq<char>) -> Seq<char> {
    "# Edited by Make Your Choice (DbD Server Selector)\n"@
        + "# Universal Redirect mode: redirect all GameLift endpoints to selected region\n"@
        + "# Need help? Discord: "@ + contact + newline() + newline()
}

/// The section content of the universal redirect policy.
pub open spec fn redirect_text(
    contact: Seq<char>,
    catalog: Seq<RegionView>,
    service_ip: Seq<char>,
    ping_ip: Seq<char>,
) -> Seq<char> {
    redirect_intro(contact) + redirect_regions(catalog, service_ip, ping_ip)
}

/// The hostname whose address serves the service endpoints: the first.
pub open spec fn service_host_of(region: RegionView) -> Seq<char> {
    region.hosts[0]
}

/// The hostname whose address serves the ping endpoints: the second or,
/// where the region has only one, the first again.
pub open spec fn ping_host_of(region: RegionView) -> Seq<char> {
    if region.hosts.len() > 1 {
        region.hosts[1]
    } else {
        region.hosts[0]
    }
}

/// Appends the gatekeep entries for the hostnames of one region.
fn push_gatekeep_hosts(content: &mut String, hosts: &Vec<String>, allow: bool, mode: BlockMode)
    ensures
        final(content)@ == old(content)@ + gatekeep_hosts(texts(hosts@), allow, mode),
{
    let ghost base = content@;
    let ghost hs = texts(hosts@);
    let n: usize = hosts.len();
    let mut j: usize = 0;
    assert(content@ =~= base + gatekeep_hosts(hs.subrange(0, 0), allow, mode));
    while j < n
        invariant
            n == hosts.len(),
            hs == texts(hosts@),
            j <= n,
            content@ == base + gatekeep_hosts(hs.subrange(0, j as int), allow, mode),
        decreases n - j,
    {
        let host: &str = hosts[j].as_str();
        proof {
            reveal_strlit("\n");
            assert("\n"@ =~= newline());
            assert(hs.subrange(0, j + 1).drop_last() =~= hs.subrange(0, j as int));
            assert(hs.subrange(0, j + 1).last() == host@);
        }
        let ping: bool = is_ping_host(host);
        let listed: bool = match mode {
            BlockMode::Both => true,
            BlockMode::OnlyPing => ping,
            BlockMode::OnlyService => !ping,
        };
        if listed {
            if allow {
                content.append("#         ");
            } else {
                content.append("0.0.0.0   ");
            }
            content.append(host);
            content.append("\n");
        }
        assert(content@ =~= base + gatekeep_hosts(hs.subrange(0, j + 1), allow, mode));
        j += 1;
    }
    assert(hs.subrange(0, n as int) =~= hs);
}

/// Renders the section content of the gatekeep policy: every hostname of the
/// catalog that `block_mode` affects, blocked unless its region is in the
/// effective allow-set of `selected`.
pub fn gatekeep_content(
    contact: &str,
    regions: &Vec<Region>,
    selected: &Vec<String>,
    block_mode: BlockMode,
    merge_unstable: bool,
) -> (content: String)
    ensures
        content@ == gatekeep_text(
            contact@,
            catalog_view(regions@),
            texts(selected@),
            block_mode,
            merge_unstable,
        ),
{
    let ghost catalog = catalog_view(regions@);
    let ghost allow = allow_set(catalog, texts(selected@), merge_unstable);
    let allowed: Vec<String> = effective_allow_set(regions, selected, merge_unstable);
    proof {
        reveal_strlit("\n");
        assert("\n"@ =~= newline());
    }
    let mut content: String = String::from_str(
        "# Edited by Make Your Choice (DbD Server Selector)\n",
    );
    content.append(
        "# Unselected servers are blocked (Gatekeep Mode); selected servers are commented out.\n",
    );
    content.append("# Need help? Discord: ");
    content.append(contact);
    content.append("\n");
    content.append("\n");
    let ghost base = gatekeep_intro(contact@);
    assert(content@ =~= base + gatekeep_regions(catalog.subrange(0, 0), allow, block_mode));
    let n: usize = regions.len();
    let mut i: usize = 0;
    while i < n
        invariant
            n == regions.len(),
            catalog == catalog_view(regions@),
            allow == allow_set(catalog, texts(selected@), merge_unstable),
            forall|id: Seq<char>| texts(allowed@).contains(id) <==> allow.contains(id),
            "\n"@ == newline(),
            i <= n,
            content@ == base + gatekeep_regions(catalog.subrange(0, i as int), allow, block_mode),
        decreases n - i,
    {
        proof {
            assert(catalog.subrange(0, i + 1).drop_last() =~= catalog.subrange(0, i as int));
            assert(catalog.subrange(0, i + 1).last() == regions@[i as int]@);
        }
        let region: &Region = &regions[i];
        let allowed_here: bool = contains_text(&allowed, region.id.as_str());
        push_gatekeep_hosts(&mut content, &region.hosts, allowed_here, block_mode);
        content.append("\n");
        assert(content@ =~= base + gatekeep_regions(catalog.subrange(0, i + 1), allow, block_mode));
        i += 1;
    }
    assert(catalog.subrange(0, n as int) =~= catalog);
    content
}

/// Appends the redirect entries for the hostnames of one region.
fn push_redirect_hosts(content: &mut String, hosts: &Vec<String>, service_ip: &str, ping_ip: &str)
    ensures
        final(content)@ == old(content)@ + redirect_hosts(texts(hosts@), service_ip@, ping_ip@),
{
    let ghost base = content@;
    let ghost hs = texts(hosts@);
    let n: usize = hosts.len();
    let mut j: usize = 0;
    assert(content@ =~= base + redirect_hosts(hs.subrange(0, 0), service_ip@, ping_ip@));
    while j < n
        invariant
            n == hosts.len(),
            hs == texts(hosts@),
            j <= n,
            content@ == base + redirect_hosts(hs.subrange(0, j as int), service_ip@, ping_ip@),
        decreases n - j,
    {
        let host: &str = hosts[j].as_str();
        proof {
            reveal_strlit("\n");
            reveal_strlit(" ");
            assert("\n"@ =~= newline());
            assert(" "@ =~= seq![' ']);
            assert(hs.subrange(0, j + 1).drop_last() =~= hs.subrange(0, j as int));
            assert(hs.subrange(0, j + 1).last() == host@);
        }
        if is_ping_host(host) {
            content.append(ping_ip);
        } else {
            content.append(service_ip);
        }
        content.append(" ");
        content.append(host);
        content.append("\n");
        assert(content@ =~= base + redirect_hosts(hs.subrange(0, j + 1), service_ip@, ping_ip@));
        j += 1;
    }
    assert(hs.subrange(0, n as int) =~= hs);
}

/// Renders the section content of the universal redirect policy: every
/// hostname of the catalog, mapped to `ping_ip` where it is a ping endpoint
/// and to `service_ip` where it is not.
pub fn redirect_content(contact: &str, regions: &Vec<Region>, service_ip: &str, ping_ip: &str) -> (content: String)
    ensures
        content@ == redirect_text(contact@, catalog_view(regions@), service_ip@, ping_ip@),
{
    let ghost catalog = catalog_view(regions@);
    proof {
        reveal_strlit("\n");
        assert("\n"@ =~= newline());
    }
    let mut content: String = String::from_str(
        "# Edited by Make Your Choice (DbD Server Selector)\n",
    );
    content.append(
        "# Universal Redirect mode: redirect all GameLift endpoints to selected region\n",
    );
    content.append("# Need help? Discord: ");
    content.append(contact);
    content.append("\n");
    content.append("\n");
    let ghost base = redirect_intro(contact@);
    assert(content@ =~= base + redirect_regions(catalog.subrange(0, 0), service_ip@, ping_ip@));
    let n: usize = regions.len();
    let mut i: usize = 0;
    while i < n
        invariant
            n == regions.len(),
            catalog == catalog_view(regions@),
            "\n"@ == newline(),
            i <= n,
            content@ == base + redirect_regions(catalog.subrange(0, i as int), service_ip@, ping_ip@),
        decreases n - i,
    {
        proof {
            assert(catalog.subrange(0, i + 1).drop_last() =~= catalog.subrange(0, i as int));
            assert(catalog.subrange(0, i + 1).last() == regions@[i as int]@);
        }
        push_redirect_hosts(&mut content, &regions[i].hosts, service_ip, ping_ip);
        content.append("\n");
        assert(content@ =~= base + redirect_regions(
            catalog.subrange(0, i + 1),
            service_ip@,
            ping_ip@,
        ));
        i += 1;
    }
    assert(catalog.subrange(0, n as int) =~= catalog);
    content
}

/// The two hostnames that a redirect to one region has to resolve.
#[derive(Clone, Debug, PartialEq, Eq)]
pub struct RedirectTargets {
    pub service_host: String,
    pub ping_host: String,
}

/// A redirect to the selection can name its targets: where the selection
/// holds one region and the catalog holds that region, it has a hostname.
pub open spec fn targets_defined(catalog: Seq<RegionView>, selected: Seq<Seq<char>>) -> bool {
    selected.len() == 1 ==> (region_index(catalog, selected[0]) matches Some(i)
        ==> catalog[i].hosts.len() > 0)
}

/// Checks the selection of a universal redirect and names the hostnames to
/// resolve. The selection must hold exactly one region, and the catalog must
/// hold that region; no lookup is due before both are known to hold.
pub fn redirect_targets(regions: &Vec<Region>, selected: &Vec<String>) -> (result: Result<
    RedirectTargets,
    HostsError,
>)
    requires
        targets_defined(catalog_view(regions@), texts(selected@)),
    ensures
        selected@.len() != 1 ==> result == Err::<RedirectTargets, HostsError>(
            HostsError::InvalidSelection,
        ),
        selected@.len() == 1 && region_index(catalog_view(regions@), selected@[0]@) is None
            ==> result == Err::<RedirectTargets, HostsError>(HostsError::RegionNotFound),
        selected@.len() == 1 ==> (region_index(catalog_view(regions@), selected@[0]@) matches Some(
            i,
        ) ==> (result matches Ok(targets) && targets.service_host@ == service_host_of(
            catalog_view(regions@)[i],
        ) && targets.ping_host@ == ping_host_of(catalog_view(regions@)[i]))),
{
    if selected.len() != 1 {
        return Err(HostsError::InvalidSelection);
    }
    match find_region(regions, selected[0].as_str()) {
        None => Err(HostsError::RegionNotFound),
        Some(i) => {
            let region: &Region = &regions[i];
            assert(catalog_view(regions@)[i as int] == region@);
            let service_host: String = region.hosts[0].clone();
            let ping_host: String = if region.hosts.len() > 1 {
                region.hosts[1].clone()
            } else {
                region.hosts[0].clone()
            };
            Ok(RedirectTargets { service_host, ping_host })
        },
    }
}

} // verus!
