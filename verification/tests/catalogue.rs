use zilch::categories::{ADVANCED, EXPERT, RECOMMENDED, UNIDENTIFIED, UNSAFE, value_to_name};
use zilch::diff::DiffEvent;
use zilch::listview::{
    Entry, State, apply_diff_to_entries, clear_selection, export_snapshot, mark_entries,
    selection_bits, upsert_entry,
};
use zilch::package::Package;

fn pkg(id: &str) -> Package {
    Package { id: id.to_string(), path: String::new(), name: None }
}

fn ids(v: &[&str]) -> Vec<String> {
    v.iter().map(|s| s.to_string()).collect()
}

#[test]
fn category_values_map_to_their_names() {
    assert_eq!(value_to_name(RECOMMENDED), "Recommended");
    assert_eq!(value_to_name(ADVANCED), "Advanced");
    assert_eq!(value_to_name(EXPERT), "Expert");
    assert_eq!(value_to_name(UNSAFE), "Unsafe");
    assert_eq!(value_to_name(UNIDENTIFIED), "Unidentified");
    assert_eq!(value_to_name(0), "Unidentified");
    assert_eq!(value_to_name(0b11000), "Unidentified");
}

#[test]
fn a_fresh_entry_is_enabled_and_unselected() {
    let e = Entry::new(pkg("com.a"));
    assert_eq!(e.state, State::Enabled);
    assert!(!e.selected);
    assert!(!e.expand_triggered);
}

#[test]
fn upserting_replaces_rows_by_id_or_appends() {
    let mut entries: Vec<Entry> = Vec::new();
    upsert_entry(&mut entries, pkg("com.a"));
    upsert_entry(&mut entries, pkg("com.b"));
    assert_eq!(entries.len(), 2);
    // a second listing of a known id opens a fresh enabled row
    entries[0].state = State::Disabled;
    upsert_entry(&mut entries, pkg("com.a"));
    assert_eq!(entries.len(), 2);
    assert_eq!(entries[0].state, State::Enabled);
}

#[test]
fn marking_moves_only_the_named_rows() {
    let mut entries = vec![Entry::new(pkg("com.a")), Entry::new(pkg("com.b"))];
    mark_entries(&mut entries, &ids(&["com.b"]), State::Disabled);
    assert_eq!(entries[0].state, State::Enabled);
    assert_eq!(entries[1].state, State::Disabled);
}

#[test]
fn a_published_diff_updates_the_whole_catalogue() {
    let mut entries = vec![Entry::new(pkg("com.keep")), Entry::new(pkg("com.gone"))];
    let d = DiffEvent {
        added: vec![pkg("com.new")],
        removed: ids(&["com.gone"]),
        disabled: ids(&["com.keep"]),
        re_enabled: ids(&[]),
    };
    apply_diff_to_entries(&mut entries, &d);
    assert_eq!(entries.len(), 3);
    assert_eq!(entries[0].package.id, "com.keep");
    assert_eq!(entries[0].state, State::Disabled);
    assert_eq!(entries[1].package.id, "com.gone");
    assert_eq!(entries[1].state, State::Uninstalled);
    assert_eq!(entries[2].package.id, "com.new");
    assert_eq!(entries[2].state, State::Enabled);
}

#[test]
fn escape_clears_every_selection() {
    let mut entries = vec![Entry::new(pkg("com.a")), Entry::new(pkg("com.b"))];
    entries[0].selected = true;
    entries[1].selected = true;
    clear_selection(&mut entries);
    assert!(entries.iter().all(|e| !e.selected));
}

#[test]
fn the_selection_fold_offers_the_right_action() {
    let mut entries = vec![Entry::new(pkg("com.a")), Entry::new(pkg("com.b"))];
    // nothing selected: no action
    assert_eq!(selection_bits(&entries), 7);
    // all selected rows enabled: uninstall or disable
    entries[0].selected = true;
    entries[1].selected = true;
    assert_eq!(selection_bits(&entries), 1);
    // one uninstalled and one disabled row: revert
    entries[0].state = State::Uninstalled;
    entries[1].state = State::Disabled;
    assert_eq!(selection_bits(&entries), 2);
    // rows all disabled, or mixed with enabled ones: no action
    entries[0].state = State::Disabled;
    assert_eq!(selection_bits(&entries), 6);
    entries[0].state = State::Enabled;
    assert_eq!(selection_bits(&entries), 0);
}

#[test]
fn the_snapshot_export_joins_ids_per_state() {
    let mut entries = vec![
        Entry::new(pkg("com.a")),
        Entry::new(pkg("com.b")),
        Entry::new(pkg("com.c")),
        Entry::new(pkg("com.d")),
    ];
    entries[1].state = State::Disabled;
    entries[3].state = State::Uninstalled;
    let text = export_snapshot(&entries);
    assert_eq!(text, "disabled=com.b\nenabled=com.a,com.c\nuninstalled=com.d");
}

#[test]
fn the_export_of_an_empty_catalogue_is_bare_headers() {
    let entries: Vec<Entry> = Vec::new();
    assert_eq!(export_snapshot(&entries), "disabled=\nenabled=\nuninstalled=");
}
