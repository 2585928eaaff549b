//! Laws of the redirect policies: who is in the effective allow-set, and
//! that every hostname of the catalog has its entry in the section content.
use vstd::prelude::*;
use crate::policy::{
    affected, allow_set, any_stable, fallback_of, gatekeep_hosts, gatekeep_intro, gatekeep_line,
    gatekeep_regions, gatekeep_text, merged, redirect_hosts, redirect_intro, redirect_line,
    redirect_regions, redirect_text,
};
use crate::region::{
    is_first_stable_in, is_first_with_id, lemma_region_index_some, lemma_stable_index_some,
    BlockMode, RegionView,
};
use crate::section::newline;
use crate::region::is_ping;
use crate::section::{lead, marker, replaced, trail};
use crate::section_laws::{law_removal_after_replacement, lemma_marker_shape};
use crate::text::{free_of, lemma_occurrence_chars, lemma_occurrence_local, occurs_at};

verus! {

/// Every selected region is allowed.
pub proof fn law_selection_is_allowed(
    catalog: Seq<RegionView>,
    selected: Seq<Seq<char>>,
    merge_unstable: bool,
    id: Seq<char>,
)
    requires
        selected.contains(id),
    ensures
        allow_set(catalog, selected, merge_unstable).contains(id),
{
}

/// Without merging, and beside any selected stable region, the allow-set is
/// the selection.
pub proof fn law_allow_set_without_merge(
    catalog: Seq<RegionView>,
    selected: Seq<Seq<char>>,
    merge_unstable: bool,
    id: Seq<char>,
)
    requires
        !merge_unstable || any_stable(catalog, selected),
    ensures
        allow_set(catalog, selected, merge_unstable).contains(id) <==> selected.contains(id),
{
}

/// Where merging is on and no selected region is stable, a selected unstable
/// region brings the first stable region of its group into the allow-set.
pub proof fn law_merge_allows_stable_sibling(
    catalog: Seq<RegionView>,
    selected: Seq<Seq<char>>,
    k: int,
    i: int,
    j: int,
)
    requires
        !any_stable(catalog, selected),
        0 <= k < selected.len(),
        is_first_with_id(catalog, selected[k], i),
        !catalog[i].stable,
        is_first_stable_in(catalog, catalog[i].group, j),
    ensures
        allow_set(catalog, selected, true).contains(selected[k]),
        allow_set(catalog, selected, true).contains(catalog[j].id),
        catalog[j].stable,
        catalog[j].group == catalog[i].group,
{
    lemma_region_index_some(catalog, selected[k], i);
    lemma_stable_index_some(catalog, catalog[i].group, j);
    assert(fallback_of(catalog, selected[k]) == Some(catalog[j].id));
    assert(merged(catalog, selected, catalog[j].id));
    assert(selected.contains(selected[k]));
}

/// An occurrence in a text stays where it is when text is added on either
/// side.
proof fn lemma_occurrence_in_context(
    left: Seq<char>,
    text: Seq<char>,
    right: Seq<char>,
    pat: Seq<char>,
    at: int,
)
    requires
        occurs_at(text, pat, at),
    ensures
        occurs_at(left + text + right, pat, left.len() + at),
{
    let whole = left + text + right;
    let from = left.len() + at;
    assert(whole.subrange(from, from + pat.len()) =~= text.subrange(at, at + pat.len()));
}

/// Each affected hostname has its entry among the entries of its region.
proof fn lemma_gatekeep_host_entry(hosts: Seq<Seq<char>>, allow: bool, mode: BlockMode, j: int)
    requires
        0 <= j < hosts.len(),
        affected(mode, hosts[j]),
    ensures
        exists|at: int| occurs_at(gatekeep_hosts(hosts, allow, mode), gatekeep_line(hosts[j], allow), at),
    decreases hosts.len(),
{
    let line = gatekeep_line(hosts[j], allow);
    let before = gatekeep_hosts(hosts.drop_last(), allow, mode);
    let whole = gatekeep_hosts(hosts, allow, mode);
    if j == hosts.len() - 1 {
        assert(occurs_at(line, line, 0)) by {
            assert(line.subrange(0, line.len() as int) =~= line);
        }
        lemma_occurrence_in_context(before, line, Seq::empty(), line, 0);
        assert(before + line + Seq::empty() =~= whole);
        assert(occurs_at(whole, line, before.len() as int));
    } else {
        lemma_gatekeep_host_entry(hosts.drop_last(), allow, mode, j);
        let at = choose|at: int| occurs_at(before, gatekeep_line(hosts.drop_last()[j], allow), at);
        let rest = if affected(mode, hosts.last()) {
            gatekeep_line(hosts.last(), allow)
        } else {
            Seq::empty()
        };
        lemma_occurrence_in_context(Seq::empty(), before, rest, line, at);
        assert(Seq::empty() + before + rest =~= whole);
        assert(occurs_at(whole, line, 0 + at));
    }
}

/// Each affected hostname of each region has its entry among the entries of
/// the catalog.
proof fn lemma_gatekeep_region_entry(
    catalog: Seq<RegionView>,
    allow: Set<Seq<char>>,
    mode: BlockMode,
    i: int,
    j: int,
)
    requires
        0 <= i < catalog.len(),
        0 <= j < catalog[i].hosts.len(),
        affected(mode, catalog[i].hosts[j]),
    ensures
        exists|at: int|
            occurs_at(
                gatekeep_regions(catalog, allow, mode),
                gatekeep_line(catalog[i].hosts[j], allow.contains(catalog[i].id)),
                at,
            ),
    decreases catalog.len(),
{
    let line = gatekeep_line(catalog[i].hosts[j], allow.contains(catalog[i].id));
    let before = gatekeep_regions(catalog.drop_last(), allow, mode);
    let last = gatekeep_hosts(catalog.last().hosts, allow.contains(catalog.last().id), mode);
    let whole = gatekeep_regions(catalog, allow, mode);
    let nl = newline();
    if i == catalog.len() - 1 {
        lemma_gatekeep_host_entry(catalog[i].hosts, allow.contains(catalog[i].id), mode, j);
        let at = choose|at: int| occurs_at(last, line, at);
        lemma_occurrence_in_context(before, last, nl, line, at);
        assert(occurs_at(whole, line, before.len() + at));
    } else {
        lemma_gatekeep_region_entry(catalog.drop_last(), allow, mode, i, j);
        let at = choose|at: int| occurs_at(before, line, at);
        lemma_occurrence_in_context(Seq::empty(), before, last + nl, line, at);
        assert(Seq::empty() + before + (last + nl) =~= whole);
        assert(occurs_at(whole, line, 0 + at));
    }
}

/// Gatekeep: every hostname of the catalog that the block mode affects has
/// its entry in the section content, commented out where its region is in
/// the effective allow-set and routed to the null address where it is not.
pub proof fn law_gatekeep_entry(
    contact: Seq<char>,
    catalog: Seq<RegionView>,
    selected: Seq<Seq<char>>,
    mode: BlockMode,
    merge_unstable: bool,
    i: int,
    j: int,
)
    requires
        0 <= i < catalog.len(),
        0 <= j < catalog[i].hosts.len(),
        affected(mode, catalog[i].hosts[j]),
    ensures
        exists|at: int|
            occurs_at(
                gatekeep_text(contact, catalog, selected, mode, merge_unstable),
                gatekeep_line(
                    catalog[i].hosts[j],
                    allow_set(catalog, selected, merge_unstable).contains(catalog[i].id),
                ),
                at,
            ),
{
    let allow = allow_set(catalog, selected, merge_unstable);
    let line = gatekeep_line(catalog[i].hosts[j], allow.contains(catalog[i].id));
    let body = gatekeep_regions(catalog, allow, mode);
    let whole = gatekeep_text(contact, catalog, selected, mode, merge_unstable);
    lemma_gatekeep_region_entry(catalog, allow, mode, i, j);
    let at = choose|at: int| occurs_at(body, line, at);
    lemma_occurrence_in_context(gatekeep_intro(contact), body, Seq::empty(), line, at);
    assert(gatekeep_intro(contact) + body + Seq::empty() =~= whole);
    assert(occurs_at(whole, line, gatekeep_intro(contact).len() + at));
}

/// Each hostname has its entry among the redirect entries of its region.
proof fn lemma_redirect_host_entry(
    hosts: Seq<Seq<char>>,
    service_ip: Seq<char>,
    ping_ip: Seq<char>,
    j: int,
)
    requires
        0 <= j < hosts.len(),
    ensures
        exists|at: int|
            occurs_at(
                redirect_hosts(hosts, service_ip, ping_ip),
                redirect_line(hosts[j], service_ip, ping_ip),
                at,
            ),
    decreases hosts.len(),
{
    let line = redirect_line(hosts[j], service_ip, ping_ip);
    let before = redirect_hosts(hosts.drop_last(), service_ip, ping_ip);
    let whole = redirect_hosts(hosts, service_ip, ping_ip);
    if j == hosts.len() - 1 {
        assert(occurs_at(line, line, 0)) by {
            assert(line.subrange(0, line.len() as int) =~= line);
        }
        lemma_occurrence_in_context(before, line, Seq::empty(), line, 0);
        assert(before + line + Seq::empty() =~= whole);
        assert(occurs_at(whole, line, before.len() as int));
    } else {
        lemma_redirect_host_entry(hosts.drop_last(), service_ip, ping_ip, j);
        let at = choose|at: int|
            occurs_at(before, redirect_line(hosts.drop_last()[j], service_ip, ping_ip), at);
        let rest = redirect_line(hosts.last(), service_ip, ping_ip);
        lemma_occurrence_in_context(Seq::empty(), before, rest, line, at);
        assert(Seq::empty() + before + rest =~= whole);
        assert(occurs_at(whole, line, 0 + at));
    }
}

/// Each hostname of each region has its entry among the redirect entries of
/// the catalog.
proof fn lemma_redirect_region_entry(
    catalog: Seq<RegionView>,
    service_ip: Seq<char>,
    ping_ip: Seq<char>,
    i: int,
    j: int,
)
    requires
        0 <= i < catalog.len(),
        0 <= j < catalog[i].hosts.len(),
    ensures
        exists|at: int|
            occurs_at(
                redirect_regions(catalog, service_ip, ping_ip),
                redirect_line(catalog[i].hosts[j], service_ip, ping_ip),
                at,
            ),
    decreases catalog.len(),
{
    let line = redirect_line(catalog[i].hosts[j], service_ip, ping_ip);
    let before = redirect_regions(catalog.drop_last(), service_ip, ping_ip);
    let last = redirect_hosts(catalog.last().hosts, service_ip, ping_ip);
    let whole = redirect_regions(catalog, service_ip, ping_ip);
    let nl = newline();
    if i == catalog.len() - 1 {
        lemma_redirect_host_entry(catalog[i].hosts, service_ip, ping_ip, j);
        let at = choose|at: int| occurs_at(last, line, at);
        lemma_occurrence_in_context(before, last, nl, line, at);
        assert(occurs_at(whole, line, before.len() + at));
    } else {
        lemma_redirect_region_entry(catalog.drop_last(), service_ip, ping_ip, i, j);
        let at = choose|at: int| occurs_at(before, line, at);
        lemma_occurrence_in_context(Seq::empty(), before, last + nl, line, at);
        assert(Seq::empty() + before + (last + nl) =~= whole);
        assert(occurs_at(whole, line, 0 + at));
    }
}

/// Universal redirect: every hostname of the catalog has its entry in the
/// section content, which maps a ping endpoint to the ping address and any
/// other hostname to the service address.
pub proof fn law_redirect_entry(
    contact: Seq<char>,
    catalog: Seq<RegionView>,
    service_ip: Seq<char>,
    ping_ip: Seq<char>,
    i: int,
    j: int,
)
    requires
        0 <= i < catalog.len(),
        0 <= j < catalog[i].hosts.len(),
    ensures
        exists|at: int|
            occurs_at(
                redirect_text(contact, catalog, service_ip, ping_ip),
                redirect_line(catalog[i].hosts[j], service_ip, ping_ip),
                at,
            ),
{
    let line = redirect_line(catalog[i].hosts[j], service_ip, ping_ip);
    let body = redirect_regions(catalog, service_ip, ping_ip);
    let whole = redirect_text(contact, catalog, service_ip, ping_ip);
    lemma_redirect_region_entry(catalog, service_ip, ping_ip, i, j);
    let at = choose|at: int| occurs_at(body, line, at);
    lemma_occurrence_in_context(redirect_intro(contact), body, Seq::empty(), line, at);
    assert(redirect_intro(contact) + body + Seq::empty() =~= whole);
    assert(occurs_at(whole, line, redirect_intro(contact).len() + at));
}

/// The content of either policy is never empty: applying a policy always
/// writes a block, and never removes the section.
pub proof fn law_policy_content_is_not_empty(
    contact: Seq<char>,
    catalog: Seq<RegionView>,
    selected: Seq<Seq<char>>,
    mode: BlockMode,
    merge_unstable: bool,
    service_ip: Seq<char>,
    ping_ip: Seq<char>,
)
    ensures
        gatekeep_text(contact, catalog, selected, mode, merge_unstable).len() > 0,
        redirect_text(contact, catalog, service_ip, ping_ip).len() > 0,
{
    assert(newline().len() == 1);
}

/// No marker starts in `text` before its body: `#` stands at most at its
/// start, and is not followed there as it is in the marker.
pub open spec fn guarded(text: Seq<char>) -> bool {
    forall|k: int|
        0 <= k < text.len() && #[trigger] text[k] == '#' ==> k == 0 && text.len() >= 3 && text[2]
            != '-'
}

/// `text` is empty or ends in a line break.
pub open spec fn closed_by_newline(text: Seq<char>) -> bool {
    text.len() == 0 || text.last() == '\n'
}

/// A line made of a guarded prefix, a marker-free body and a line break
/// holds no marker.
proof fn lemma_line_is_free(prefix: Seq<char>, body: Seq<char>)
    requires
        guarded(prefix),
        free_of(body, marker()),
    ensures
        free_of(prefix + body + newline(), marker()),
{
    lemma_marker_shape();
    let m = marker();
    let line = prefix + body + newline();
    assert forall|j: int| !occurs_at(line, m, j) by {
        if occurs_at(line, m, j) {
            lemma_occurrence_chars(line, m, j);
            assert(line[j + 0] == m[0]);
            assert(line[j + 2] == m[2]);
            assert(line[j + 25] == m[25]);
            if j + 26 == line.len() {
                assert(line[j + 25] == '\n');
            } else if j >= prefix.len() {
                lemma_occurrence_local(line, body, m, j, j - prefix.len());
                assert(occurs_at(body, m, j - prefix.len()));
            } else {
                assert(prefix[j] == '#');
                assert(line[2] == prefix[2]);
            }
        }
    }
}

/// Behind a text that ends in a line break, a marker-free text adds no
/// marker.
proof fn lemma_join_is_free(a: Seq<char>, b: Seq<char>)
    requires
        free_of(a, marker()),
        free_of(b, marker()),
        closed_by_newline(a),
    ensures
        free_of(a + b, marker()),
{
    lemma_marker_shape();
    let m = marker();
    let whole = a + b;
    assert forall|j: int| !occurs_at(whole, m, j) by {
        if occurs_at(whole, m, j) {
            lemma_occurrence_chars(whole, m, j);
            if j + 26 <= a.len() {
                lemma_occurrence_local(whole, a, m, j, j);
                assert(occurs_at(a, m, j));
            } else if j >= a.len() {
                lemma_occurrence_local(whole, b, m, j, j - a.len());
                assert(occurs_at(b, m, j - a.len()));
            } else {
                let k = a.len() - 1 - j;
                assert(whole[j + k] == m[k]);
                assert(whole[a.len() - 1] == '\n');
            }
        }
    }
}

/// The empty text holds no marker.
proof fn lemma_empty_is_free()
    ensures
        free_of(Seq::<char>::empty(), marker()),
{
    lemma_marker_shape();
}

/// Every hostname of `hosts` is free of the marker.
pub open spec fn hosts_free(hosts: Seq<Seq<char>>) -> bool {
    forall|j: int| 0 <= j < hosts.len() ==> free_of(#[trigger] hosts[j], marker())
}

/// Every hostname of every region of `catalog` is free of the marker.
pub open spec fn catalog_free(catalog: Seq<RegionView>) -> bool {
    forall|i: int| 0 <= i < catalog.len() ==> hosts_free((#[trigger] catalog[i]).hosts)
}

/// The gatekeep entries of marker-free hostnames hold no marker.
proof fn lemma_gatekeep_hosts_free(hosts: Seq<Seq<char>>, allow: bool, mode: BlockMode)
    requires
        hosts_free(hosts),
    ensures
        free_of(gatekeep_hosts(hosts, allow, mode), marker()),
        closed_by_newline(gatekeep_hosts(hosts, allow, mode)),
    decreases hosts.len(),
{
    if hosts.len() == 0 {
        lemma_empty_is_free();
    } else {
        let before = gatekeep_hosts(hosts.drop_last(), allow, mode);
        assert forall|j: int| 0 <= j < hosts.drop_last().len() implies free_of(
            #[trigger] hosts.drop_last()[j],
            marker(),
        ) by {
            assert(hosts.drop_last()[j] == hosts[j]);
        }
        lemma_gatekeep_hosts_free(hosts.drop_last(), allow, mode);
        if affected(mode, hosts.last()) {
            let prefix = if allow {
                "#         "@
            } else {
                "0.0.0.0   "@
            };
            reveal_strlit("#         ");
            reveal_strlit("0.0.0.0   ");
            assert(guarded(prefix));
            assert(free_of(hosts[hosts.len() - 1], marker()));
            lemma_line_is_free(prefix, hosts.last());
            lemma_join_is_free(before, gatekeep_line(hosts.last(), allow));
        } else {
            assert(before + Seq::<char>::empty() =~= before);
        }
    }
}

/// The gatekeep entries of a catalog with marker-free hostnames hold no
/// marker.
proof fn lemma_gatekeep_regions_free(catalog: Seq<RegionView>, allow: Set<Seq<char>>, mode: BlockMode)
    requires
        catalog_free(catalog),
    ensures
        free_of(gatekeep_regions(catalog, allow, mode), marker()),
        closed_by_newline(gatekeep_regions(catalog, allow, mode)),
    decreases catalog.len(),
{
    if catalog.len() == 0 {
        lemma_empty_is_free();
    } else {
        let before = gatekeep_regions(catalog.drop_last(), allow, mode);
        let last = gatekeep_hosts(catalog.last().hosts, allow.contains(catalog.last().id), mode);
        assert forall|i: int| 0 <= i < catalog.drop_last().len() implies hosts_free(
            (#[trigger] catalog.drop_last()[i]).hosts,
        ) by {
            assert(catalog.drop_last()[i] == catalog[i]);
        }
        lemma_gatekeep_regions_free(catalog.drop_last(), allow, mode);
        assert(hosts_free(catalog[catalog.len() - 1].hosts));
        lemma_gatekeep_hosts_free(catalog.last().hosts, allow.contains(catalog.last().id), mode);
        lemma_empty_is_free();
        lemma_line_is_free(Seq::empty(), Seq::empty());
        assert(Seq::<char>::empty() + Seq::<char>::empty() + newline() =~= newline());
        lemma_join_is_free(last, newline());
        lemma_join_is_free(before, last + newline());
        assert(before + (last + newline()) =~= gatekeep_regions(catalog, allow, mode));
    }
}

/// Gatekeep content holds no marker where neither the contact nor any
/// hostname of the catalog holds one.
pub proof fn law_gatekeep_text_is_marker_free(
    contact: Seq<char>,
    catalog: Seq<RegionView>,
    selected: Seq<Seq<char>>,
    mode: BlockMode,
    merge_unstable: bool,
)
    requires
        free_of(contact, marker()),
        catalog_free(catalog),
    ensures
        free_of(gatekeep_text(contact, catalog, selected, mode, merge_unstable), marker()),
{
    let first = "# Edited by Make Your Choice (DbD Server Selector)\n"@;
    let second = "# Unselected servers are blocked (Gatekeep Mode); selected servers are commented out.\n"@;
    let third = "# Need help? Discord: "@;
    lemma_intro_is_free(first, second, third, contact);
    let intro = gatekeep_intro(contact);
    assert(intro =~= first + second + third + contact + newline() + newline());
    let allow = allow_set(catalog, selected, merge_unstable);
    lemma_gatekeep_regions_free(catalog, allow, mode);
    lemma_join_is_free(intro, gatekeep_regions(catalog, allow, mode));
}

/// The comment lines that open a section hold no marker where the contact
/// holds none, and end in a line break.
proof fn lemma_intro_is_free(
    first: Seq<char>,
    second: Seq<char>,
    third: Seq<char>,
    contact: Seq<char>,
)
    requires
        first == "# Edited by Make Your Choice (DbD Server Selector)\n"@,
        second
            == "# Unselected servers are blocked (Gatekeep Mode); selected servers are commented out.\n"@
            || second
            == "# Universal Redirect mode: redirect all GameLift endpoints to selected region\n"@,
        third == "# Need help? Discord: "@,
        free_of(contact, marker()),
    ensures
        free_of(first + second + third + contact + newline() + newline(), marker()),
        closed_by_newline(first + second + third + contact + newline() + newline()),
{
    reveal_strlit("# Edited by Make Your Choice (DbD Server Selector)\n");
    reveal_strlit(
        "# Unselected servers are blocked (Gatekeep Mode); selected servers are commented out.\n",
    );
    reveal_strlit("# Universal Redirect mode: redirect all GameLift endpoints to selected region\n");
    reveal_strlit("# Need help? Discord: ");
    lemma_empty_is_free();
    let nl = newline();
    let none = Seq::<char>::empty();
    let first_body = first.drop_last();
    let second_body = second.drop_last();
    assert(guarded(first_body));
    assert(guarded(second_body));
    assert(guarded(third));
    lemma_line_is_free(first_body, none);
    assert(first_body + none + nl =~= first);
    lemma_line_is_free(second_body, none);
    assert(second_body + none + nl =~= second);
    lemma_line_is_free(third, contact);
    lemma_line_is_free(none, none);
    assert(none + none + nl =~= nl);
    lemma_join_is_free(first, second);
    lemma_join_is_free(first + second, third + contact + nl);
    lemma_join_is_free(first + second + (third + contact + nl), nl);
    assert(first + second + (third + contact + nl) + nl =~= first + second + third + contact + nl
        + nl);
}

/// `text` holds no `#`, as no address does.
pub open spec fn hash_free(text: Seq<char>) -> bool {
    forall|k: int| 0 <= k < text.len() ==> #[trigger] text[k] != '#'
}

/// The redirect entries of marker-free hostnames hold no marker.
proof fn lemma_redirect_hosts_free(hosts: Seq<Seq<char>>, service_ip: Seq<char>, ping_ip: Seq<char>)
    requires
        hosts_free(hosts),
        hash_free(service_ip),
        hash_free(ping_ip),
    ensures
        free_of(redirect_hosts(hosts, service_ip, ping_ip), marker()),
        closed_by_newline(redirect_hosts(hosts, service_ip, ping_ip)),
    decreases hosts.len(),
{
    if hosts.len() == 0 {
        lemma_empty_is_free();
    } else {
        let before = redirect_hosts(hosts.drop_last(), service_ip, ping_ip);
        assert forall|j: int| 0 <= j < hosts.drop_last().len() implies free_of(
            #[trigger] hosts.drop_last()[j],
            marker(),
        ) by {
            assert(hosts.drop_last()[j] == hosts[j]);
        }
        lemma_redirect_hosts_free(hosts.drop_last(), service_ip, ping_ip);
        let ip = if is_ping(hosts.last()) {
            ping_ip
        } else {
            service_ip
        };
        let prefix = ip + seq![' '];
        assert(guarded(prefix));
        assert(free_of(hosts[hosts.len() - 1], marker()));
        lemma_line_is_free(prefix, hosts.last());
        lemma_join_is_free(before, redirect_line(hosts.last(), service_ip, ping_ip));
    }
}

/// The redirect entries of a catalog with marker-free hostnames hold no
/// marker.
proof fn lemma_redirect_regions_free(
    catalog: Seq<RegionView>,
    service_ip: Seq<char>,
    ping_ip: Seq<char>,
)
    requires
        catalog_free(catalog),
        hash_free(service_ip),
        hash_free(ping_ip),
    ensures
        free_of(redirect_regions(catalog, service_ip, ping_ip), marker()),
        closed_by_newline(redirect_regions(catalog, service_ip, ping_ip)),
    decreases catalog.len(),
{
    if catalog.len() == 0 {
        lemma_empty_is_free();
    } else {
        let before = redirect_regions(catalog.drop_last(), service_ip, ping_ip);
        let last = redirect_hosts(catalog.last().hosts, service_ip, ping_ip);
        assert forall|i: int| 0 <= i < catalog.drop_last().len() implies hosts_free(
            (#[trigger] catalog.drop_last()[i]).hosts,
        ) by {
            assert(catalog.drop_last()[i] == catalog[i]);
        }
        lemma_redirect_regions_free(catalog.drop_last(), service_ip, ping_ip);
        assert(hosts_free(catalog[catalog.len() - 1].hosts));
        lemma_redirect_hosts_free(catalog.last().hosts, service_ip, ping_ip);
        lemma_empty_is_free();
        lemma_line_is_free(Seq::empty(), Seq::empty());
        assert(Seq::<char>::empty() + Seq::<char>::empty() + newline() =~= newline());
        lemma_join_is_free(last, newline());
        lemma_join_is_free(before, last + newline());
        assert(before + (last + newline()) =~= redirect_regions(catalog, service_ip, ping_ip));
    }
}

/// Redirect content holds no marker where neither the contact nor any
/// hostname of the catalog holds one and the two addresses hold no `#`.
pub proof fn law_redirect_text_is_marker_free(
    contact: Seq<char>,
    catalog: Seq<RegionView>,
    service_ip: Seq<char>,
    ping_ip: Seq<char>,
)
    requires
        free_of(contact, marker()),
        catalog_free(catalog),
        hash_free(service_ip),
        hash_free(ping_ip),
    ensures
        free_of(redirect_text(contact, catalog, service_ip, ping_ip), marker()),
{
    let first = "# Edited by Make Your Choice (DbD Server Selector)\n"@;
    let second = "# Universal Redirect mode: redirect all GameLift endpoints to selected region\n"@;
    let third = "# Need help? Discord: "@;
    lemma_intro_is_free(first, second, third, contact);
    let intro = redirect_intro(contact);
    assert(intro =~= first + second + third + contact + newline() + newline());
    lemma_redirect_regions_free(catalog, service_ip, ping_ip);
    lemma_join_is_free(intro, redirect_regions(catalog, service_ip, ping_ip));
}

/// Revert after gatekeep: where neither the contact nor any hostname holds
/// the marker, removing the section after a gatekeep has written it leaves
/// the lead of `doc`, one line break and the trail of `doc`.
pub proof fn law_revert_after_gatekeep(
    doc: Seq<char>,
    contact: Seq<char>,
    catalog: Seq<RegionView>,
    selected: Seq<Seq<char>>,
    mode: BlockMode,
    merge_unstable: bool,
)
    requires
        free_of(contact, marker()),
        catalog_free(catalog),
    ensures
        replaced(
            replaced(doc, gatekeep_text(contact, catalog, selected, mode, merge_unstable)),
            Seq::empty(),
        ) == lead(doc) + newline() + trail(doc),
{
    let content = gatekeep_text(contact, catalog, selected, mode, merge_unstable);
    law_policy_content_is_not_empty(
        contact,
        catalog,
        selected,
        mode,
        merge_unstable,
        Seq::empty(),
        Seq::empty(),
    );
    law_gatekeep_text_is_marker_free(contact, catalog, selected, mode, merge_unstable);
    law_removal_after_replacement(doc, content);
}

/// Revert after redirect: where neither the contact nor any hostname holds
/// the marker and the addresses hold no `#`, removing the section after a
/// redirect has written it leaves the lead of `doc`, one line break and the
/// trail of `doc`.
pub proof fn law_revert_after_redirect(
    doc: Seq<char>,
    contact: Seq<char>,
    catalog: Seq<RegionView>,
    service_ip: Seq<char>,
    ping_ip: Seq<char>,
)
    requires
        free_of(contact, marker()),
        catalog_free(catalog),
        hash_free(service_ip),
        hash_free(ping_ip),
    ensures
        replaced(
            replaced(doc, redirect_text(contact, catalog, service_ip, ping_ip)),
            Seq::empty(),
        ) == lead(doc) + newline() + trail(doc),
{
    let content = redirect_text(contact, catalog, service_ip, ping_ip);
    law_policy_content_is_not_empty(
        contact,
        catalog,
        Seq::empty(),
        BlockMode::Both,
        false,
        service_ip,
        ping_ip,
    );
    law_redirect_text_is_marker_free(contact, catalog, service_ip, ping_ip);
    law_removal_after_replacement(doc, content);
}

} // verus!
