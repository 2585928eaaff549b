use make_your_choice::policy::{
    any_stable_selected, contains_text, effective_allow_set, gatekeep_content, redirect_content,
    redirect_targets,
};
use make_your_choice::region::{find_region, find_stable_in_group, is_ping_host};
use make_your_choice::{BlockMode, HostsError, Region};

fn region(id: &str, group: &str, stable: bool, hosts: &[&str]) -> Region {
    Region {
        id: id.to_string(),
        group: group.to_string(),
        hosts: hosts.iter().map(|h| h.to_string()).collect(),
        stable,
    }
}

fn ids(list: &[&str]) -> Vec<String> {
    list.iter().map(|s| s.to_string()).collect()
}

fn two_stable() -> Vec<Region> {
    vec![
        region("A", "G", true, &["a-svc", "a-ping"]),
        region("B", "G", true, &["b-svc", "b-ping"]),
    ]
}

fn mixed() -> Vec<Region> {
    vec![
        region("U", "G", false, &["u-svc", "u-ping"]),
        region("T", "H", true, &["t-svc"]),
        region("S", "G", true, &["s-svc", "s-ping"]),
        region("S2", "G", true, &["s2-svc"]),
        region("V", "K", false, &["v-svc"]),
    ]
}

const GATEKEEP_INTRO: &str = "# Edited by Make Your Choice (DbD Server Selector)\n# Unselected servers are blocked (Gatekeep Mode); selected servers are commented out.\n# Need help? Discord: https://example.test/help\n\n";
const REDIRECT_INTRO: &str = "# Edited by Make Your Choice (DbD Server Selector)\n# Universal Redirect mode: redirect all GameLift endpoints to selected region\n# Need help? Discord: https://example.test/help\n\n";
const CONTACT: &str = "https://example.test/help";

#[test]
fn ping_hosts_are_told_by_name() {
    assert!(is_ping_host("gamelift-ping.eu-west-1.api.aws"));
    assert!(is_ping_host("PING"));
    assert!(is_ping_host("a-PiNg"));
    assert!(is_ping_host("xxping"));
    assert!(!is_ping_host("gamelift.eu-west-1.amazonaws.com"));
    assert!(!is_ping_host("pin"));
    assert!(!is_ping_host("p-ing"));
    assert!(!is_ping_host(""));
}

#[test]
fn find_region_gives_position() {
    let catalog = mixed();
    assert_eq!(find_region(&catalog, "U"), Some(0));
    assert_eq!(find_region(&catalog, "S2"), Some(3));
    assert_eq!(find_region(&catalog, "s2"), None);
    assert_eq!(find_region(&Vec::new(), "U"), None);
}

#[test]
fn find_stable_in_group_takes_first() {
    let catalog = mixed();
    assert_eq!(find_stable_in_group(&catalog, "G"), Some(2));
    assert_eq!(find_stable_in_group(&catalog, "H"), Some(1));
    assert_eq!(find_stable_in_group(&catalog, "K"), None);
    assert_eq!(find_stable_in_group(&catalog, "none"), None);
}

#[test]
fn contains_text_finds_member() {
    let list = ids(&["A", "B"]);
    assert!(contains_text(&list, "B"));
    assert!(!contains_text(&list, "C"));
    assert!(!contains_text(&Vec::new(), "A"));
}

#[test]
fn any_stable_selected_reads_catalog() {
    let catalog = mixed();
    assert!(!any_stable_selected(&catalog, &ids(&["U", "V"])));
    assert!(any_stable_selected(&catalog, &ids(&["U", "T"])));
    assert!(!any_stable_selected(&catalog, &ids(&["unknown"])));
    assert!(!any_stable_selected(&catalog, &ids(&[])));
}

#[test]
fn allow_set_is_selection_without_merge() {
    let allowed = effective_allow_set(&mixed(), &ids(&["U"]), false);
    assert_eq!(allowed, ids(&["U"]));
}

#[test]
fn allow_set_merges_stable_sibling() {
    let mut allowed = effective_allow_set(&mixed(), &ids(&["U"]), true);
    allowed.sort();
    allowed.dedup();
    assert_eq!(allowed, ids(&["S", "U"]));
}

#[test]
fn allow_set_does_not_merge_beside_stable_selection() {
    let mut allowed = effective_allow_set(&mixed(), &ids(&["U", "T"]), true);
    allowed.sort();
    allowed.dedup();
    assert_eq!(allowed, ids(&["T", "U"]));
}

#[test]
fn allow_set_without_stable_sibling_is_unchanged() {
    let mut allowed = effective_allow_set(&mixed(), &ids(&["V"]), true);
    allowed.sort();
    allowed.dedup();
    assert_eq!(allowed, ids(&["V"]));
}

#[test]
fn allow_set_ignores_unknown_region() {
    let mut allowed = effective_allow_set(&mixed(), &ids(&["nowhere"]), true);
    allowed.sort();
    allowed.dedup();
    assert_eq!(allowed, ids(&["nowhere"]));
}

#[test]
fn gatekeep_blocks_unselected_regions() {
    let content = gatekeep_content(CONTACT, &two_stable(), &ids(&["A"]), BlockMode::Both, false);
    let expected = format!(
        "{}#         a-svc\n#         a-ping\n\n0.0.0.0   b-svc\n0.0.0.0   b-ping\n\n",
        GATEKEEP_INTRO
    );
    assert_eq!(content, expected);
}

#[test]
fn gatekeep_line_matches_padded_prefix() {
    let content = gatekeep_content(CONTACT, &two_stable(), &ids(&["A"]), BlockMode::Both, false);
    assert!(content.contains(&format!("{:9} {}\n", "#", "a-svc")));
    assert!(content.contains(&format!("{:9} {}\n", "0.0.0.0", "b-ping")));
}

#[test]
fn gatekeep_only_ping_lists_ping_hosts() {
    let content =
        gatekeep_content(CONTACT, &two_stable(), &ids(&["A"]), BlockMode::OnlyPing, false);
    let expected = format!("{}#         a-ping\n\n0.0.0.0   b-ping\n\n", GATEKEEP_INTRO);
    assert_eq!(content, expected);
}

#[test]
fn gatekeep_only_service_lists_service_hosts() {
    let content =
        gatekeep_content(CONTACT, &two_stable(), &ids(&["A"]), BlockMode::OnlyService, false);
    let expected = format!("{}#         a-svc\n\n0.0.0.0   b-svc\n\n", GATEKEEP_INTRO);
    assert_eq!(content, expected);
}

#[test]
fn gatekeep_merge_allows_stable_sibling() {
    let content = gatekeep_content(CONTACT, &mixed(), &ids(&["U"]), BlockMode::Both, true);
    let expected = format!(
        "{}#         u-svc\n#         u-ping\n\n0.0.0.0   t-svc\n\n#         s-svc\n#         s-ping\n\n0.0.0.0   s2-svc\n\n0.0.0.0   v-svc\n\n",
        GATEKEEP_INTRO
    );
    assert_eq!(content, expected);
}

#[test]
fn gatekeep_without_merge_blocks_sibling() {
    let content = gatekeep_content(CONTACT, &mixed(), &ids(&["U"]), BlockMode::Both, false);
    assert!(content.contains("0.0.0.0   s-svc\n"));
    assert!(content.contains("#         u-svc\n"));
}

#[test]
fn gatekeep_of_empty_catalog_is_intro() {
    let content = gatekeep_content(CONTACT, &Vec::new(), &ids(&["A"]), BlockMode::Both, true);
    assert_eq!(content, GATEKEEP_INTRO);
}

#[test]
fn redirect_maps_every_host() {
    let content = redirect_content(CONTACT, &two_stable(), "1.2.3.4", "5.6.7.8");
    let expected = format!(
        "{}1.2.3.4 a-svc\n5.6.7.8 a-ping\n\n1.2.3.4 b-svc\n5.6.7.8 b-ping\n\n",
        REDIRECT_INTRO
    );
    assert_eq!(content, expected);
}

#[test]
fn redirect_targets_of_two_host_region() {
    let targets = redirect_targets(&two_stable(), &ids(&["B"])).unwrap();
    assert_eq!(targets.service_host, "b-svc");
    assert_eq!(targets.ping_host, "b-ping");
}

#[test]
fn redirect_targets_of_single_host_region() {
    let targets = redirect_targets(&mixed(), &ids(&["T"])).unwrap();
    assert_eq!(targets.service_host, "t-svc");
    assert_eq!(targets.ping_host, "t-svc");
}

#[test]
fn redirect_targets_refuse_wrong_cardinality() {
    assert_eq!(
        redirect_targets(&two_stable(), &ids(&["A", "B"])),
        Err(HostsError::InvalidSelection)
    );
    assert_eq!(redirect_targets(&two_stable(), &ids(&[])), Err(HostsError::InvalidSelection));
}

#[test]
fn redirect_targets_refuse_unknown_region() {
    assert_eq!(redirect_targets(&two_stable(), &ids(&["Z"])), Err(HostsError::RegionNotFound));
}

#[test]
fn dotted_capital_i_is_no_ping_host() {
    assert!(!is_ping_host("p\u{130}ng"));
    assert_eq!(
        is_ping_host("p\u{130}ng"),
        "p\u{130}ng".to_lowercase().contains("ping")
    );
}

#[test]
fn ping_classification_agrees_with_lowercase_search() {
    for host in ["PING", "a-PiNg", "pin", "gamelift-ping.eu", "K\u{212a}ping", "PINg.x", "pi ng"] {
        assert_eq!(is_ping_host(host), host.to_lowercase().contains("ping"));
    }
}

#[test]
fn gatekeep_lists_catalog_in_order() {
    let catalog = vec![
        region("Z", "G", true, &["z-svc"]),
        region("A", "G", true, &["a-svc"]),
        region("M", "G", true, &[]),
    ];
    let content = gatekeep_content(CONTACT, &catalog, &ids(&["A", "M"]), BlockMode::Both, false);
    let expected = format!("{}0.0.0.0   z-svc\n\n#         a-svc\n\n\n", GATEKEEP_INTRO);
    assert_eq!(content, expected);
}

#[test]
fn redirect_classifies_ping_in_any_case() {
    let catalog = vec![region("A", "G", true, &["A-PING.example", "a.example", "b-Ping"])];
    let content = redirect_content(CONTACT, &catalog, "10.0.0.1", "10.0.0.2");
    let expected = format!(
        "{}10.0.0.2 A-PING.example\n10.0.0.1 a.example\n10.0.0.2 b-Ping\n\n",
        REDIRECT_INTRO
    );
    assert_eq!(content, expected);
}
