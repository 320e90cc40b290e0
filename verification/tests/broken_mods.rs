use chud::broken_mods::{
    flag, is_broken, is_mod_file, list, load, scan_and_flag, scan_targets, slot_champion, unflag,
    BrokenMod, BrokenMods, ModFile, Slot,
};

type Entry = (String, String, i64, String);

fn sorted(entries: &[(String, BrokenMod)]) -> Vec<Entry> {
    let mut all: Vec<Entry> = entries
        .iter()
        .map(|e| (e.0.clone(), e.1.name.clone(), e.1.champion_id, e.1.reason_path.clone()))
        .collect();
    all.sort();
    all
}

fn entry(path: &str, name: &str, champion_id: i64, reason: &str) -> Entry {
    (path.to_string(), name.to_string(), champion_id, reason.to_string())
}

fn file(path: &str, stem: Option<&str>, extension: Option<&str>) -> ModFile {
    ModFile {
        extension: extension.map(|e| e.to_string()),
        path: path.to_string(),
        stem: stem.map(|s| s.to_string()),
    }
}

fn slot(name: &str, files: Vec<ModFile>) -> Slot {
    Slot { is_dir: true, name: Some(name.to_string()), files: Some(files) }
}

#[test]
fn new_registry_is_empty() {
    let mods = BrokenMods::new();
    assert!(list(&mods).is_empty());
    assert!(!is_broken(&mods, "a"));
}

#[test]
fn flagged_mod_is_broken_until_unflagged() {
    let mut mods = BrokenMods::new();
    assert!(flag(&mut mods, "skins/1000/a.zip", "a", 1, "data/a.bin"));
    assert!(is_broken(&mods, "skins/1000/a.zip"));
    assert!(!is_broken(&mods, "skins/1000/b.zip"));
    assert_eq!(
        sorted(&list(&mods)),
        vec![entry("skins/1000/a.zip", "a", 1, "data/a.bin")]
    );
    assert!(unflag(&mut mods, "skins/1000/a.zip"));
    assert!(!is_broken(&mods, "skins/1000/a.zip"));
    assert!(!unflag(&mut mods, "skins/1000/a.zip"));
    assert!(list(&mods).is_empty());
}

#[test]
fn flagging_again_for_the_same_reason_is_not_saved() {
    let mut mods = BrokenMods::new();
    assert!(flag(&mut mods, "p", "a", 1, "r"));
    assert!(!flag(&mut mods, "p", "a", 1, "r"));
    assert!(!flag(&mut mods, "p", "b", 2, "r"));
    assert_eq!(sorted(&list(&mods)), vec![entry("p", "b", 2, "r")]);
    assert!(flag(&mut mods, "p", "b", 2, "r2"));
    assert_eq!(sorted(&list(&mods)), vec![entry("p", "b", 2, "r2")]);
}

#[test]
fn empty_path_is_ignored_by_flag() {
    let mut mods = BrokenMods::new();
    assert!(!flag(&mut mods, "", "a", 1, "r"));
    assert!(!is_broken(&mods, ""));
    assert!(list(&mods).is_empty());
}

#[test]
fn unflag_leaves_other_mods_alone() {
    let mut mods = BrokenMods::new();
    for p in vec!["a", "b", "c"] {
        assert!(flag(&mut mods, p, p, 1, "r"));
    }
    assert!(unflag(&mut mods, "b"));
    assert_eq!(sorted(&list(&mods)), vec![entry("a", "a", 1, "r"), entry("c", "c", 1, "r")]);
}

#[test]
fn saved_registry_is_read_back() {
    let mut mods = BrokenMods::new();
    flag(&mut mods, "a", "n", -3, "r");
    flag(&mut mods, "b", "m", 4, "q");
    let back = load(Some(list(&mods)));
    assert_eq!(sorted(&list(&back)), sorted(&list(&mods)));
    assert!(list(&load(None)).is_empty());
}

#[test]
fn last_entry_of_a_path_counts() {
    let one = BrokenMod { name: "one".to_string(), champion_id: 1, reason_path: "r".to_string() };
    let two = BrokenMod { name: "two".to_string(), champion_id: 2, reason_path: "q".to_string() };
    let mods = BrokenMods::from_entries(vec![
        ("a".to_string(), one.clone()),
        ("b".to_string(), one),
        ("a".to_string(), two),
    ]);
    assert_eq!(sorted(&list(&mods)), vec![entry("a", "two", 2, "q"), entry("b", "one", 1, "r")]);
}

#[test]
fn slot_name_gives_the_champion() {
    let champion = |is_dir: bool, name: &str| slot_champion(is_dir, &Some(name.to_string()));
    assert_eq!(champion(true, "266000"), Some(266));
    assert_eq!(champion(true, "266999"), Some(266));
    assert_eq!(champion(true, "999"), Some(0));
    assert_eq!(champion(true, "-1500"), Some(-1));
    assert_eq!(champion(true, "+1000"), Some(1));
    assert_eq!(champion(true, "aatrox"), None);
    assert_eq!(champion(true, ""), None);
    assert_eq!(champion(false, "266000"), None);
    assert_eq!(slot_champion(true, &None), None);
}

#[test]
fn mods_are_told_by_their_extension() {
    for e in vec!["fantome", "zip", "ZIP", "FanTome"] {
        assert!(is_mod_file(&Some(e.to_string())));
    }
    for e in vec!["", "zipx", "wad", "rar", "fantom\u{c9}"] {
        assert!(!is_mod_file(&Some(e.to_string())));
    }
    assert!(!is_mod_file(&None));
}

fn listing() -> Vec<Slot> {
    vec![
        slot(
            "1000",
            vec![
                file("skins\\1000\\a.ZIP", Some("a"), Some("ZIP")),
                file("skins\\1000\\readme.txt", Some("readme"), Some("txt")),
                file("skins\\1000\\b.fantome", Some("b"), Some("fantome")),
            ],
        ),
        slot("notes", vec![file("skins\\notes\\c.zip", Some("c"), Some("zip"))]),
        Slot {
            is_dir: false,
            name: Some("2000".to_string()),
            files: Some(vec![file("skins\\2000\\d.zip", Some("d"), Some("zip"))]),
        },
        Slot { is_dir: true, name: Some("3000".to_string()), files: None },
        Slot { is_dir: true, name: None, files: Some(vec![file("x", None, Some("zip"))]) },
        slot("4000", vec![file("skins\\4000\\e.zip", None, Some("zip"))]),
    ]
}

#[test]
fn scan_looks_into_the_mods_of_champion_slots() {
    let targets = scan_targets(&listing());
    let found: Vec<(usize, usize, i64)> =
        targets.iter().map(|t| (t.slot, t.file, t.champion_id)).collect();
    assert_eq!(found, vec![(0, 0, 1), (0, 2, 1), (5, 0, 4)]);
}

#[test]
fn scan_flags_what_it_finds() {
    let slots = listing();
    let mut mods = BrokenMods::new();
    flag(&mut mods, "skins/1000/b.fantome", "old", 1, "data/b.bin");
    let verdicts =
        vec![Some("data/a.bin".to_string()), Some("data/b.bin".to_string()), None];
    let report = scan_and_flag(&mut mods, &slots, &verdicts);
    assert_eq!(report.flagged, 1);
    assert_eq!(
        sorted(&list(&mods)),
        vec![
            entry("skins/1000/a.ZIP", "a", 1, "data/a.bin"),
            entry("skins/1000/b.fantome", "b", 1, "data/b.bin"),
        ]
    );
    // The flag of `b` was no news, so what is saved still has its old name.
    assert_eq!(
        sorted(&report.save.unwrap()),
        vec![
            entry("skins/1000/a.ZIP", "a", 1, "data/a.bin"),
            entry("skins/1000/b.fantome", "old", 1, "data/b.bin"),
        ]
    );
    assert_eq!(sorted(&report.news), vec![entry("skins/1000/a.ZIP", "a", 1, "data/a.bin")]);
    let once = sorted(&list(&mods));
    let again = scan_and_flag(&mut mods, &slots, &verdicts);
    assert_eq!(again.flagged, 0);
    assert!(again.save.is_none());
    assert!(again.news.is_empty());
    assert_eq!(sorted(&list(&mods)), once);
}

#[test]
fn scan_names_a_file_without_stem_by_nothing() {
    let slots = listing();
    let mut mods = BrokenMods::new();
    let report = scan_and_flag(&mut mods, &slots, &vec![None, None, Some("r".to_string())]);
    assert_eq!(report.flagged, 1);
    assert_eq!(sorted(&list(&mods)), vec![entry("skins/4000/e.zip", "", 4, "r")]);
}

#[test]
fn scan_news_come_in_order() {
    let mut mods = BrokenMods::new();
    flag(&mut mods, "skins/1000/b.fantome", "b", 1, "old reason");
    let verdicts = vec![Some("r1".to_string()), Some("r2".to_string()), Some("r3".to_string())];
    let report = scan_and_flag(&mut mods, &listing(), &verdicts);
    assert_eq!(report.flagged, 2);
    let news: Vec<(&str, &str)> =
        report.news.iter().map(|e| (e.0.as_str(), e.1.reason_path.as_str())).collect();
    assert_eq!(
        news,
        vec![("skins/1000/a.ZIP", "r1"), ("skins/1000/b.fantome", "r2"), ("skins/4000/e.zip", "r3")]
    );
    assert_eq!(list(&mods).len(), 3);
}

#[test]
fn scan_without_findings_changes_nothing() {
    let mut mods = BrokenMods::new();
    flag(&mut mods, "p", "n", 1, "r");
    let report = scan_and_flag(&mut mods, &listing(), &vec![None, None, None]);
    assert_eq!(report.flagged, 0);
    assert!(report.save.is_none());
    assert_eq!(sorted(&list(&mods)), vec![entry("p", "n", 1, "r")]);
}
