use zilch::diff::diff;
use zilch::package::Package;
use zilch::sync::{SyncEngine, SyncState, apply_extractor_output, dedup_records, fill_label};

fn pkg(id: &str) -> Package {
    Package { id: id.to_string(), path: format!("/data/app/{id}.apk"), name: None }
}

fn ids(v: &[&str]) -> Vec<String> {
    v.iter().map(|s| s.to_string()).collect()
}

#[test]
fn first_snapshot_adds_everything() {
    let cur = vec![pkg("A"), pkg("B")];
    let d = diff(&ids(&[]), &ids(&[]), &cur, &ids(&[]));
    let added: Vec<&str> = d.added.iter().map(|p| p.id.as_str()).collect();
    assert_eq!(added, vec!["A", "B"]);
    assert!(d.removed.is_empty());
    assert!(d.disabled.is_empty());
    assert!(d.re_enabled.is_empty());
}

#[test]
fn a_vanished_package_is_removed() {
    let cur = vec![pkg("A")];
    let d = diff(&ids(&["A", "B"]), &ids(&[]), &cur, &ids(&[]));
    assert!(d.added.is_empty());
    assert_eq!(d.removed, ids(&["B"]));
    assert!(d.disabled.is_empty());
    assert!(d.re_enabled.is_empty());
}

#[test]
fn disabling_and_reverting_show_in_the_disabled_lists() {
    let cur = vec![pkg("A")];
    // the package stays in the full listing, so nothing is removed
    let d = diff(&ids(&["A"]), &ids(&[]), &cur, &ids(&["A"]));
    assert!(d.added.is_empty());
    assert!(d.removed.is_empty());
    assert_eq!(d.disabled, ids(&["A"]));
    assert!(d.re_enabled.is_empty());

    // reverting takes it out of the disabled listing again
    let d2 = diff(&ids(&["A"]), &ids(&["A"]), &vec![pkg("A")], &ids(&[]));
    assert!(d2.added.is_empty());
    assert!(d2.removed.is_empty());
    assert!(d2.disabled.is_empty());
    assert_eq!(d2.re_enabled, ids(&["A"]));
}

#[test]
fn engine_starts_disconnected_and_empty() {
    let e = SyncEngine::new();
    assert_eq!(e.state, SyncState::Disconnected);
    assert!(e.pkgs.records.is_empty());
    assert!(e.disabled.is_empty());
}

#[test]
fn engine_comes_up_only_on_a_parseable_level() {
    let mut e = SyncEngine::new();
    e.start_scan();
    assert_eq!(e.state, SyncState::Connecting);
    assert!(e.on_handshake("garbage").is_none());
    assert_eq!(e.state, SyncState::Disconnected);
    e.start_scan();
    let sess = e.on_handshake("25\n").expect("level parses");
    assert_eq!(sess.api_level, 25);
    assert_eq!(e.state, SyncState::Ready);
}

#[test]
fn engine_folds_snapshots_and_keeps_names() {
    let mut e = SyncEngine::new();
    e.start_scan();
    e.on_handshake("30").unwrap();

    let d1 = e.apply_snapshot(&vec![pkg("A"), pkg("B")], &ids(&[]));
    assert_eq!(d1.added.len(), 2);
    assert_eq!(e.pkgs.records.len(), 2);

    // a resolved name sticks to the record across snapshots
    e.pkgs.set_name_once(&"A".to_string(), &"Alpha".to_string());
    assert_eq!(e.pkgs.records[0].name.as_deref(), Some("Alpha"));
    e.pkgs.set_name_once(&"A".to_string(), &"Beta".to_string());
    assert_eq!(e.pkgs.records[0].name.as_deref(), Some("Alpha"));

    let d2 = e.apply_snapshot(&vec![pkg("A"), pkg("C")], &ids(&["C"]));
    let added: Vec<&str> = d2.added.iter().map(|p| p.id.as_str()).collect();
    assert_eq!(added, vec!["C"]);
    assert_eq!(d2.removed, ids(&["B"]));
    assert_eq!(d2.disabled, ids(&["C"]));
    let kept: Vec<&str> = e.pkgs.records.iter().map(|p| p.id.as_str()).collect();
    assert_eq!(kept, vec!["A", "C"]);
    assert_eq!(e.pkgs.records[0].name.as_deref(), Some("Alpha"));
}

#[test]
fn a_timeout_keeps_state_and_a_fatal_error_clears_it() {
    let mut e = SyncEngine::new();
    e.start_scan();
    e.on_handshake("30").unwrap();
    e.apply_snapshot(&vec![pkg("A")], &ids(&[]));
    e.on_timeout();
    assert_eq!(e.state, SyncState::Ready);
    assert_eq!(e.pkgs.records.len(), 1);
    e.on_fatal_error();
    assert_eq!(e.state, SyncState::Disconnected);
    assert!(e.pkgs.records.is_empty());
    assert!(e.disabled.is_empty());
}

#[test]
fn labels_fill_once_and_never_again() {
    let mut v = vec![pkg("A"), pkg("B")];
    fill_label(&mut v, &"B".to_string(), &"Bee".to_string());
    assert!(v[0].name.is_none());
    assert_eq!(v[1].name.as_deref(), Some("Bee"));
    fill_label(&mut v, &"B".to_string(), &"Other".to_string());
    assert_eq!(v[1].name.as_deref(), Some("Bee"));
}

#[test]
fn deduplication_keeps_the_first_record_per_id() {
    let raw = vec![
        Package { id: "A".to_string(), path: "/first".to_string(), name: None },
        Package { id: "B".to_string(), path: "/b".to_string(), name: None },
        Package { id: "A".to_string(), path: "/second".to_string(), name: None },
    ];
    let clean = dedup_records(&raw);
    assert_eq!(clean.len(), 2);
    assert_eq!(clean[0].id, "A");
    assert_eq!(clean[0].path, "/first");
    assert_eq!(clean[1].id, "B");
}

#[test]
fn extractor_output_fills_new_records() {
    let mut v = vec![pkg("com.a"), pkg("com.b")];
    let out = "x com.b Nice App\nx com.missing Gone\nbroken\n";
    apply_extractor_output(&mut v, out);
    assert!(v[0].name.is_none());
    assert_eq!(v[1].name.as_deref(), Some("Nice App"));
}
