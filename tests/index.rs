use cookcore::index::{entry_order, DirEntry, Error, FsIndex, RecipeContent, RecipeEntry, Step};

fn entry(p: &str, is_file: bool) -> DirEntry {
    DirEntry::new(p.to_string(), 1, is_file, !is_file)
}

fn found(s: &Step) -> Option<&str> {
    match s {
        Step::Found(e) => Some(e.path()),
        _ => None,
    }
}

#[test]
fn invalid_name() {
    let idx = FsIndex::new("base", 3);
    assert!(matches!(idx.start_get(""), Step::Failed(Error::InvalidName(ref n)) if n.is_empty()));
}

#[test]
fn probe_hit_is_cached() {
    let mut idx = FsIndex::new("base", 3);
    let probe = match idx.start_get("soup") {
        Step::Probe(p) => p,
        _ => panic!("expected a probe"),
    };
    assert_eq!(probe, "base/soup.cook");
    let s = idx.probe_step("soup", true);
    assert_eq!(found(&s), Some("base/soup.cook"));
    let again = idx.start_get("soup");
    assert_eq!(found(&again), Some("base/soup.cook"));
    assert_eq!(idx.visited(), 0);
}

#[test]
fn walk_hit_is_cached_without_more_walking() {
    let mut idx = FsIndex::new("base", 3);
    assert!(matches!(idx.start_get("soup"), Step::Probe(_)));
    assert!(matches!(idx.probe_step("soup", false), Step::Walk));
    assert!(matches!(idx.walk_step("soup", &entry("base/a", false)), Step::Walk));
    assert!(matches!(idx.walk_step("soup", &entry("base/a/pie.cook", true)), Step::Walk));
    let s = idx.walk_step("soup", &entry("base/a/soup.cook", true));
    assert_eq!(found(&s), Some("base/a/soup.cook"));
    assert_eq!(idx.visited(), 3);
    assert_eq!(found(&idx.start_get("soup")), Some("base/a/soup.cook"));
    assert_eq!(found(&idx.start_get("pie")), Some("base/a/pie.cook"));
    assert_eq!(idx.visited(), 3);
}

#[test]
fn first_of_duplicate_stems_wins() {
    let mut idx = FsIndex::new("base", 3);
    assert!(matches!(idx.start_get("soup"), Step::Probe(_)));
    assert!(matches!(idx.probe_step("soup", false), Step::Walk));
    let s = idx.walk_step("soup", &entry("base/a/soup.cook", true));
    assert_eq!(found(&s), Some("base/a/soup.cook"));
    // a later walk that sees another file of the same stem keeps the first
    assert!(matches!(idx.start_get("pie"), Step::Probe(_)));
    assert!(matches!(idx.walk_step("pie", &entry("base/b/soup.cook", true)), Step::Walk));
    assert_eq!(found(&idx.start_get("soup")), Some("base/a/soup.cook"));
}

#[test]
fn missing_name_fails_at_once_the_second_time() {
    let mut idx = FsIndex::new("base", 3);
    assert!(matches!(idx.start_get("missing"), Step::Probe(_)));
    assert!(matches!(idx.probe_step("missing", false), Step::Walk));
    assert!(matches!(idx.walk_step("missing", &entry("base/x.txt", true)), Step::Walk));
    let e = idx.walk_ended("missing");
    assert!(matches!(e, Error::NotFound(ref n) if n == "missing"));
    let visited = idx.visited();
    assert!(matches!(idx.start_get("missing"), Step::Failed(Error::NotFound(ref n)) if n == "missing"));
    assert_eq!(idx.visited(), visited);
    // another spelling is not pre-empted
    assert!(matches!(idx.start_get("dir/missing"), Step::Probe(_)));
}

#[test]
fn non_recipe_entries() {
    let e = entry("base/a.txt", true);
    assert!(!e.is_recipe());
    assert!(entry("base/a.cook", true).is_recipe());
    assert!(!entry("base/a.cook", false).is_recipe());
    assert!(RecipeEntry::from_entry(e).is_err());
    let ok = RecipeEntry::from_entry(entry("base/r.cook", true)).ok().unwrap();
    assert_eq!(ok.path(), "base/r.cook");
}

#[test]
fn entry_names() {
    let e = entry("base/dir/soup.cook", true);
    assert_eq!(e.file_name(), "soup.cook");
    assert_eq!(e.file_stem(), "soup");
    assert_eq!(e.depth(), 1);
    assert_eq!(e.path(), "base/dir/soup.cook");
}

#[test]
fn walk_order_files_first_then_names() {
    assert_eq!(entry_order(true, "b", false, "a"), -1);
    assert_eq!(entry_order(false, "a", true, "b"), 1);
    assert_eq!(entry_order(true, "a", true, "b"), -1);
    assert_eq!(entry_order(false, "b", false, "a"), 1);
    assert_eq!(entry_order(true, "a", true, "a"), 0);
}

#[test]
fn recipe_content() {
    let c = RecipeContent::new("text".to_string(), "base/Soup.cook".to_string());
    assert_eq!(c.text(), "text");
    assert_eq!(c.name(), Some("Soup".to_string()));
}

#[test]
fn steps_outside_the_probe_change_nothing() {
    let mut idx = FsIndex::new("base", 3);
    assert!(matches!(idx.start_get("soup"), Step::Probe(_)));
    assert_eq!(found(&idx.probe_step("soup", true)), Some("base/soup.cook"));
    // the lookup is answered from the cache now: no probe, no walk
    assert_eq!(found(&idx.probe_step("soup", false)), Some("base/soup.cook"));
    assert_eq!(found(&idx.walk_step("soup", &entry("base/z/soup.cook", true))), Some("base/soup.cook"));
    assert_eq!(idx.visited(), 0);
    assert!(matches!(idx.walk_step("", &entry("base/a.cook", true)), Step::Failed(Error::InvalidName(_))));
}

#[test]
fn probe_paths_join_like_unix_paths() {
    let idx = FsIndex::new("base/", 3);
    assert!(matches!(idx.start_get("a/soup"), Step::Probe(ref p) if p == "base/a/soup.cook"));
    let root = FsIndex::new("", 3);
    assert!(matches!(root.start_get("soup"), Step::Probe(ref p) if p == "soup.cook"));
    let abs = FsIndex::new("base", 3);
    assert!(matches!(abs.start_get("/x/soup"), Step::Probe(ref p) if p == "/x/soup.cook"));
}
