use make_your_choice::paths::{backup_path, hosts_path};
use make_your_choice::writer::{first_step, next_step};
use make_your_choice::{
    BlockMode, Catalog, HostsError, HostsManager, Outcome, Region, Selection, WriteFailureReason,
    WriteStep,
};

const MARKER: &str = "# --+ Make Your Choice +--";
const CONTACT: &str = "https://example.test/help";

fn region(id: &str, group: &str, stable: bool, hosts: &[&str]) -> Region {
    Region {
        id: id.to_string(),
        group: group.to_string(),
        hosts: hosts.iter().map(|h| h.to_string()).collect(),
        stable,
    }
}

fn ids(list: &[&str]) -> Selection {
    let mut selection = Selection::new();
    for id in list {
        assert!(selection.insert(id.to_string()));
    }
    selection
}

fn catalog_of(regions: Vec<Region>) -> Catalog {
    let mut catalog = Catalog::new();
    for r in regions {
        assert!(catalog.insert(r));
    }
    catalog
}

fn catalog() -> Catalog {
    catalog_of(vec![
        region("A", "G", true, &["a-svc", "a-ping"]),
        region("B", "G", true, &["b-svc", "b-ping"]),
    ])
}

fn manager() -> HostsManager {
    HostsManager::new(CONTACT.to_string())
}

#[test]
fn gatekeep_writes_section_into_document() {
    let out = manager()
        .apply_gatekeep("127.0.0.1 localhost\n", &catalog(), &ids(&["A"]), BlockMode::Both, false)
        .unwrap();
    let expected = format!(
        "127.0.0.1 localhost\n\n{m}\n# Edited by Make Your Choice (DbD Server Selector)\n# Unselected servers are blocked (Gatekeep Mode); selected servers are commented out.\n# Need help? Discord: {c}\n\n#         a-svc\n#         a-ping\n\n0.0.0.0   b-svc\n0.0.0.0   b-ping\n\n{m}\n",
        m = MARKER,
        c = CONTACT
    );
    assert_eq!(out, expected);
}

#[test]
fn gatekeep_with_merge_allows_unstable_and_sibling() {
    let regions = catalog_of(vec![
        region("U", "G", false, &["u-svc"]),
        region("S", "G", true, &["s-svc"]),
        region("O", "H", true, &["o-svc"]),
    ]);
    let out = manager().apply_gatekeep("", &regions, &ids(&["U"]), BlockMode::Both, true).unwrap();
    assert!(out.contains("#         u-svc\n"));
    assert!(out.contains("#         s-svc\n"));
    assert!(out.contains("0.0.0.0   o-svc\n"));
}

#[test]
fn gatekeep_refuses_empty_selection() {
    let result = manager().apply_gatekeep("doc\n", &catalog(), &ids(&[]), BlockMode::Both, true);
    assert_eq!(result, Err(HostsError::EmptySelection));
}

#[test]
fn redirect_writes_section_into_document() {
    let doc = format!("head\n{m}\nold\n{m}\ntail\n", m = MARKER);
    let out = manager()
        .apply_universal_redirect(&doc, &catalog(), &ids(&["A"]), Some("1.2.3.4"), Some("5.6.7.8"))
        .unwrap();
    let expected = format!(
        "head\n{m}\n# Edited by Make Your Choice (DbD Server Selector)\n# Universal Redirect mode: redirect all GameLift endpoints to selected region\n# Need help? Discord: {c}\n\n1.2.3.4 a-svc\n5.6.7.8 a-ping\n\n1.2.3.4 b-svc\n5.6.7.8 b-ping\n\n{m}\n\ntail\n",
        m = MARKER,
        c = CONTACT
    );
    assert_eq!(out, expected);
}

#[test]
fn redirect_refuses_selection_of_two() {
    let result = manager().apply_universal_redirect(
        "doc\n",
        &catalog(),
        &ids(&["A", "B"]),
        Some("1.2.3.4"),
        Some("5.6.7.8"),
    );
    assert_eq!(result, Err(HostsError::InvalidSelection));
    let unresolved =
        manager().apply_universal_redirect("doc\n", &catalog(), &ids(&["A", "B"]), None, None);
    assert_eq!(unresolved, Err(HostsError::InvalidSelection));
}

#[test]
fn redirect_refuses_empty_selection() {
    let result = manager().apply_universal_redirect("doc\n", &catalog(), &ids(&[]), None, None);
    assert_eq!(result, Err(HostsError::InvalidSelection));
}

#[test]
fn redirect_refuses_unknown_region() {
    let result = manager().apply_universal_redirect(
        "doc\n",
        &catalog(),
        &ids(&["Z"]),
        Some("1.2.3.4"),
        Some("5.6.7.8"),
    );
    assert_eq!(result, Err(HostsError::RegionNotFound));
}

#[test]
fn redirect_reports_unresolved_service_host() {
    let result =
        manager().apply_universal_redirect("doc\n", &catalog(), &ids(&["A"]), None, Some("5.6.7.8"));
    assert_eq!(result, Err(HostsError::ResolutionFailure { hostname: "a-svc".to_string() }));
}

#[test]
fn redirect_reports_unresolved_ping_host() {
    let result =
        manager().apply_universal_redirect("doc\n", &catalog(), &ids(&["B"]), Some("1.2.3.4"), None);
    assert_eq!(result, Err(HostsError::ResolutionFailure { hostname: "b-ping".to_string() }));
}

#[test]
fn revert_removes_section_only() {
    let doc = format!("head\n{m}\nold\n{m}\ntail\n", m = MARKER);
    assert_eq!(manager().revert(&doc), "head\n\ntail\n");
}

#[test]
fn write_wrapped_section_splices_content() {
    let doc = format!("head\n{m}\nold\n{m}", m = MARKER);
    let out = manager().write_wrapped_section(&doc, "new");
    assert_eq!(out, format!("head\n{m}\nnew\n{m}\n", m = MARKER));
}

#[test]
fn restore_default_is_loopback_template() {
    assert_eq!(
        manager().restore_default(),
        "# Static table lookup for hostnames.\n# See hosts(5) for details.\n127.0.0.1        localhost\n::1              localhost\n"
    );
}

#[test]
fn messages_name_the_failure() {
    assert_eq!(
        HostsError::EmptySelection.message(),
        "Please select at least one server to allow."
    );
    assert_eq!(
        HostsError::InvalidSelection.message(),
        "Please select only one server when using Universal Redirect mode."
    );
    assert_eq!(HostsError::RegionNotFound.message(), "Selected region not found");
    assert_eq!(
        HostsError::ResolutionFailure { hostname: "a-svc".to_string() }.message(),
        "Failed to resolve hostname: a-svc"
    );
    assert_eq!(
        HostsError::WriteFailure { reason: WriteFailureReason::Permission }.message(),
        "Failed to write to /etc/hosts. Please run this function with sudo."
    );
    assert_eq!(
        HostsError::WriteFailure { reason: WriteFailureReason::Io }.message(),
        "Failed to write to /etc/hosts. Please run this function with sudo."
    );
}

#[test]
fn catalog_keeps_insertion_order() {
    let c = catalog();
    assert_eq!(c.len(), 2);
    assert_eq!(c.regions()[0].id, "A");
    assert_eq!(c.regions()[1].id, "B");
    assert_eq!(c.regions()[1].hosts, vec!["b-svc".to_string(), "b-ping".to_string()]);
    assert_eq!(Catalog::new().len(), 0);
}

#[test]
fn catalog_refuses_second_region_with_same_id() {
    let mut c = catalog();
    assert!(!c.insert(region("A", "other", false, &["x"])));
    assert_eq!(c.len(), 2);
    assert_eq!(c.regions()[0].group, "G");
    assert!(c.regions()[0].stable);
    assert!(c.insert(region("C", "G", false, &["c-svc"])));
    assert_eq!(c.len(), 3);
    assert_eq!(c.regions()[2].id, "C");
}

#[test]
fn selection_holds_each_id_once() {
    let mut s = Selection::new();
    assert_eq!(s.len(), 0);
    assert!(s.insert("A".to_string()));
    assert!(!s.insert("A".to_string()));
    assert!(s.insert("B".to_string()));
    assert_eq!(s.len(), 2);
    assert_eq!(s.ids(), &vec!["A".to_string(), "B".to_string()]);
    assert!(s.contains("B"));
    assert!(!s.contains("C"));
}

#[test]
fn redirect_accepts_id_chosen_twice() {
    let mut s = Selection::new();
    s.insert("A".to_string());
    s.insert("A".to_string());
    let out = manager()
        .apply_universal_redirect("", &catalog(), &s, Some("1.2.3.4"), Some("5.6.7.8"))
        .unwrap();
    assert!(out.contains("1.2.3.4 b-svc\n"));
    assert!(out.contains("5.6.7.8 a-ping\n"));
}

#[test]
fn redirect_of_single_host_region_names_it_for_ping() {
    let regions = catalog_of(vec![region("T", "H", true, &["t-svc"])]);
    let result = manager().apply_universal_redirect("", &regions, &ids(&["T"]), Some("1.1.1.1"), None);
    assert_eq!(result, Err(HostsError::ResolutionFailure { hostname: "t-svc".to_string() }));
}

#[test]
fn persisting_runs_backup_write_flush() {
    assert_eq!(first_step(), WriteStep::Backup);
    assert_eq!(next_step(WriteStep::Backup, Outcome::Succeeded), Ok(WriteStep::Write));
    assert_eq!(next_step(WriteStep::Write, Outcome::Succeeded), Ok(WriteStep::FlushCaches));
    assert_eq!(next_step(WriteStep::FlushCaches, Outcome::Succeeded), Ok(WriteStep::Done));
    assert_eq!(next_step(WriteStep::Done, Outcome::Succeeded), Ok(WriteStep::Done));
}

#[test]
fn failed_backup_and_flush_are_ignored() {
    assert_eq!(next_step(WriteStep::Backup, Outcome::Failed), Ok(WriteStep::Write));
    assert_eq!(next_step(WriteStep::Backup, Outcome::Denied), Ok(WriteStep::Write));
    assert_eq!(next_step(WriteStep::FlushCaches, Outcome::Failed), Ok(WriteStep::Done));
    assert_eq!(next_step(WriteStep::FlushCaches, Outcome::Denied), Ok(WriteStep::Done));
}

#[test]
fn failed_write_ends_with_its_reason() {
    assert_eq!(
        next_step(WriteStep::Write, Outcome::Denied),
        Err(HostsError::WriteFailure { reason: WriteFailureReason::Permission })
    );
    assert_eq!(
        next_step(WriteStep::Write, Outcome::Failed),
        Err(HostsError::WriteFailure { reason: WriteFailureReason::Io })
    );
}

#[test]
fn table_and_backup_paths_are_fixed() {
    assert_eq!(hosts_path(), "/etc/hosts");
    assert_eq!(backup_path(), "/etc/hosts.bak");
}

#[test]
fn failed_write_message_names_path_and_hint() {
    for outcome in [Outcome::Denied, Outcome::Failed] {
        let error = next_step(WriteStep::Write, outcome).unwrap_err();
        let text = error.message();
        assert!(text.contains(hosts_path()));
        assert!(text.contains("sudo"));
        assert_eq!(text, "Failed to write to /etc/hosts. Please run this function with sudo.");
    }
}

#[test]
fn revert_after_gatekeep_takes_section_out() {
    let doc = "127.0.0.1 localhost\n";
    let applied =
        manager().apply_gatekeep(doc, &catalog(), &ids(&["A"]), BlockMode::Both, true).unwrap();
    assert_eq!(manager().revert(&applied), "127.0.0.1 localhost\n\n\n");
}

#[test]
fn revert_after_redirect_takes_section_out() {
    let doc = format!("head\n{m}\nold\n{m}\ntail\n", m = MARKER);
    let applied = manager()
        .apply_universal_redirect(&doc, &catalog(), &ids(&["B"]), Some("1.2.3.4"), Some("::1"))
        .unwrap();
    assert_eq!(manager().revert(&applied), "head\n\n\ntail\n");
}
