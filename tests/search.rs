use search_dir::{DirTree, Entry, EntryKind, ItemType, NotFound, Race, RaceStep, Scan, Step, next_step, scan};

fn entry(name: &str, path: &str, kind: EntryKind) -> Entry {
    Entry { name: name.to_string(), path: path.to_string(), kind }
}

fn add(t: &mut DirTree, dir: usize, parent_path: &str, name: &str, kind: EntryKind) -> (usize, String) {
    let path = format!("{}/{}", parent_path, name);
    let d = t.add_entry(dir, name.to_string(), path.clone(), kind);
    (d, path)
}

fn not_found(name: &str) -> NotFound {
    NotFound { name: name.to_string() }
}

#[test]
fn compiles() {
    let result = 2 + 2;
    assert_eq!(result, 4);
}

#[test]
fn accepts_follows_the_filter() {
    assert!(ItemType::File.accepts(EntryKind::File));
    assert!(!ItemType::File.accepts(EntryKind::Directory));
    assert!(!ItemType::File.accepts(EntryKind::Other));
    assert!(ItemType::Directory.accepts(EntryKind::Directory));
    assert!(!ItemType::Directory.accepts(EntryKind::File));
    assert!(ItemType::Either.accepts(EntryKind::File));
    assert!(ItemType::Either.accepts(EntryKind::Directory));
    assert!(ItemType::Either.accepts(EntryKind::Other));
}

#[test]
fn scan_takes_first_match() {
    let entries = vec![
        entry("a", "r/a", EntryKind::Directory),
        entry("x", "r/x", EntryKind::File),
        entry("x", "r/x2", EntryKind::File),
    ];
    match scan(&entries, &"x".to_string(), ItemType::File) {
        Scan::Hit(j) => assert_eq!(j, 1),
        _ => panic!("expected a hit"),
    }
}

#[test]
fn scan_requires_exact_name() {
    let entries = vec![entry("Xx", "r/Xx", EntryKind::File), entry("xX", "r/xX", EntryKind::File)];
    assert!(matches!(scan(&entries, &"X".to_string(), ItemType::Either), Scan::Miss));
    assert!(matches!(scan(&entries, &"x".to_string(), ItemType::Either), Scan::Miss));
}

#[test]
fn scan_descends_in_listing_order() {
    let entries = vec![
        entry("b", "r/b", EntryKind::Directory),
        entry("f", "r/f", EntryKind::File),
        entry("target", "r/target", EntryKind::Directory),
        entry("o", "r/o", EntryKind::Other),
    ];
    match scan(&entries, &"target".to_string(), ItemType::File) {
        Scan::Descend(ds) => assert_eq!(ds, vec![0, 2]),
        _ => panic!("expected the subdirectories"),
    }
}

#[test]
fn scan_empty_listing_misses() {
    let entries: Vec<Entry> = Vec::new();
    assert!(matches!(scan(&entries, &"".to_string(), ItemType::Either), Scan::Miss));
}

#[test]
fn next_step_prefers_match_over_read_error() {
    let entries = vec![entry("a", "r/a", EntryKind::Directory), entry("t", "r/t", EntryKind::Directory)];
    match next_step(&entries, Some("denied"), &"t".to_string(), ItemType::Directory) {
        Step::Found(p) => assert_eq!(p, "r/t"),
        _ => panic!("expected a match"),
    }
}

#[test]
fn next_step_read_error_without_match_fails() {
    let entries = vec![entry("a", "r/a", EntryKind::Directory)];
    match next_step(&entries, Some("denied"), &"t".to_string(), ItemType::Either) {
        Step::Failed(e) => assert_eq!(e, "denied"),
        _ => panic!("expected the read error"),
    }
}

#[test]
fn next_step_descends_into_subdirectory_paths() {
    let entries = vec![
        entry("a", "r/a", EntryKind::Directory),
        entry("t", "r/t", EntryKind::File),
        entry("c", "r/c", EntryKind::Directory),
    ];
    match next_step::<&str>(&entries, None, &"t".to_string(), ItemType::Directory) {
        Step::Descend(ps) => assert_eq!(ps, vec!["r/a".to_string(), "r/c".to_string()]),
        _ => panic!("expected the subdirectories"),
    }
}

#[test]
fn next_step_without_subdirectories_is_not_found() {
    let entries = vec![entry("t", "r/t", EntryKind::File)];
    assert!(matches!(
        next_step::<&str>(&entries, None, &"t".to_string(), ItemType::Directory),
        Step::NotFound
    ));
}

#[test]
fn race_first_success_wins_and_later_outcomes_are_dropped() {
    let mut race: Race<&str> = Race::new(3);
    assert!(matches!(race.on_branch_done(Err("denied")), RaceStep::Waiting));
    assert_eq!(race.pending(), 2);
    match race.on_branch_done(Ok("r/b/x".to_string())) {
        RaceStep::Won(p) => assert_eq!(p, "r/b/x"),
        _ => panic!("expected a win"),
    }
    assert!(race.is_settled());
    assert!(matches!(race.on_branch_done(Err("late failure")), RaceStep::Ignored));
    assert!(matches!(race.on_branch_done(Ok("r/c/x".to_string())), RaceStep::Ignored));
}

#[test]
fn race_lost_with_last_failure() {
    let mut race: Race<&str> = Race::new(2);
    assert!(matches!(race.on_branch_done(Err("first")), RaceStep::Waiting));
    match race.on_branch_done(Err("second")) {
        RaceStep::Lost(e) => assert_eq!(e, "second"),
        _ => panic!("expected the race to be lost"),
    }
    assert!(race.is_settled());
    assert_eq!(race.pending(), 0);
}

#[test]
fn race_without_branches_ignores_outcomes() {
    let mut race: Race<&str> = Race::new(0);
    assert!(matches!(race.on_branch_done(Ok("x".to_string())), RaceStep::Ignored));
    assert!(!race.is_settled());
}

#[test]
fn tree_scenario_target_file() {
    let mut t = DirTree::new();
    let (a, a_path) = add(&mut t, 0, "root", "a", EntryKind::Directory);
    let (b, b_path) = add(&mut t, 0, "root", "b", EntryKind::Directory);
    add(&mut t, a, &a_path, "target.txt", EntryKind::File);
    add(&mut t, b, &b_path, "c", EntryKind::Directory);
    let name = "target.txt".to_string();
    assert_eq!(t.search(&name, ItemType::File).unwrap(), "root/a/target.txt");
    assert_eq!(t.search(&name, ItemType::Directory).unwrap_err().name, not_found("target.txt").name);
    assert_eq!(t.search(&"missing".to_string(), ItemType::Either).unwrap_err().name, "missing");
}

#[test]
fn tree_empty_root_is_not_found() {
    let t = DirTree::new();
    assert!(t.search(&"".to_string(), ItemType::Either).is_err());
}

#[test]
fn tree_exact_name_only() {
    let mut t = DirTree::new();
    let (d, p) = add(&mut t, 0, "r", "Xx", EntryKind::Directory);
    add(&mut t, d, &p, "xX", EntryKind::File);
    add(&mut t, 0, "r", "X.txt", EntryKind::File);
    for ty in [ItemType::File, ItemType::Directory, ItemType::Either] {
        assert!(t.search(&"X".to_string(), ty).is_err());
    }
    assert_eq!(t.search(&"Xx".to_string(), ItemType::Directory).unwrap(), "r/Xx");
}

#[test]
fn tree_type_filter_on_nested_file() {
    let mut t = DirTree::new();
    let (a, pa) = add(&mut t, 0, "r", "a", EntryKind::Directory);
    let (b, pb) = add(&mut t, a, &pa, "b", EntryKind::Directory);
    add(&mut t, b, &pb, "X", EntryKind::File);
    let name = "X".to_string();
    assert!(t.search(&name, ItemType::Directory).is_err());
    assert_eq!(t.search(&name, ItemType::File).unwrap(), "r/a/b/X");
    assert_eq!(t.search(&name, ItemType::Either).unwrap(), "r/a/b/X");
}

#[test]
fn tree_deep_match_is_found() {
    let mut t = DirTree::new();
    let mut dir = 0;
    let mut path = "r".to_string();
    for i in 0..10 {
        let (d, p) = add(&mut t, dir, &path, &format!("level{}", i), EntryKind::Directory);
        dir = d;
        path = p;
    }
    add(&mut t, dir, &path, "deep", EntryKind::Directory);
    let found = t.search(&"deep".to_string(), ItemType::Directory).unwrap();
    assert_eq!(found, format!("{}/deep", path));
    assert_eq!(found.matches('/').count(), 11);
}

#[test]
fn tree_direct_match_wins_over_deeper_one() {
    let mut t = DirTree::new();
    let (a, pa) = add(&mut t, 0, "r", "a", EntryKind::Directory);
    add(&mut t, a, &pa, "X", EntryKind::Directory);
    add(&mut t, 0, "r", "X", EntryKind::Directory);
    assert_eq!(t.search(&"X".to_string(), ItemType::Directory).unwrap(), "r/X");
}

#[test]
fn tree_one_of_several_matches() {
    let mut t = DirTree::new();
    let mut expected = Vec::new();
    for sub in ["a", "b", "c"] {
        let (d, p) = add(&mut t, 0, "r", sub, EntryKind::Directory);
        let (_, x) = add(&mut t, d, &p, "X", EntryKind::File);
        expected.push(x);
    }
    let found = t.search(&"X".to_string(), ItemType::File).unwrap();
    assert!(expected.contains(&found));
}

#[test]
fn tree_match_after_failing_branches() {
    let mut t = DirTree::new();
    let (a, pa) = add(&mut t, 0, "r", "a", EntryKind::Directory);
    add(&mut t, a, &pa, "other", EntryKind::File);
    add(&mut t, 0, "r", "b", EntryKind::Directory);
    let (c, pc) = add(&mut t, 0, "r", "c", EntryKind::Directory);
    add(&mut t, c, &pc, "X", EntryKind::Other);
    assert_eq!(t.search(&"X".to_string(), ItemType::Either).unwrap(), "r/c/X");
    assert!(t.search(&"X".to_string(), ItemType::File).is_err());
}
