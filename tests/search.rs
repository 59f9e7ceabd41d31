use rfind::filter::EntryKind;
use rfind::finder::Finder;
use rfind::finder::FinderError;
use rfind::finder::TreeEntry;
use rfind::walk::Walk;

fn file(dir: &str, name: &str) -> TreeEntry {
    TreeEntry {
        name: Some(name.to_string()),
        path: format!("{}/{}", dir, name),
        kind: EntryKind::File,
        listing: None,
    }
}

fn link(dir: &str, name: &str) -> TreeEntry {
    TreeEntry { kind: EntryKind::Symlink, ..file(dir, name) }
}

fn dir(parent: &str, name: &str, listing: Option<Vec<TreeEntry>>) -> TreeEntry {
    TreeEntry { kind: EntryKind::Directory, listing, ..file(parent, name) }
}

/// `root/{a.txt, b/{a.txt, c.log}}`
fn small_tree() -> Vec<TreeEntry> {
    vec![
        file("root", "a.txt"),
        dir("root", "b", Some(vec![file("root/b", "a.txt"), file("root/b", "c.log")])),
    ]
}

/// A tree with every kind of entry, and names that several patterns share.
fn mixed_tree(readable: bool) -> Vec<TreeEntry> {
    let inner = vec![file("root/x/y", "x"), link("root/x/y", "x.log")];
    let x = vec![
        dir("root/x", "y", Some(inner)),
        file("root/x", "x.log"),
        TreeEntry { kind: EntryKind::Other, ..file("root/x", "x.sock") },
    ];
    vec![
        file("root", "xa"),
        dir("root", "x", if readable { Some(x) } else { None }),
        link("root", "x2"),
        dir("root", "z", Some(vec![file("root/z", "x.log")])),
    ]
}

fn finder(p: &str, t: &str) -> Finder {
    match Finder::new(p, t) {
        Ok(f) => f,
        Err(e) => panic!("{:?}", e),
    }
}

fn run(p: &str, t: &str, tree: &Vec<TreeEntry>) -> Vec<String> {
    finder(p, t).search_tree(tree)
}

#[test]
fn literal_name_found_in_pre_order() {
    assert_eq!(run("a.txt", "any", &small_tree()), vec!["root/a.txt", "root/b/a.txt"]);
}

#[test]
fn wildcard_with_file_filter() {
    assert_eq!(run("*.log", "file", &small_tree()), vec!["root/b/c.log"]);
}

#[test]
fn matching_directory_is_still_entered() {
    assert_eq!(run("b", "dir", &small_tree()), vec!["root/b"]);
    let tree = vec![dir("root", "b", Some(vec![dir("root/b", "b", Some(vec![]))]))];
    assert_eq!(run("b", "dir", &tree), vec!["root/b", "root/b/b"]);
}

#[test]
fn star_reports_everything_in_pre_order() {
    assert_eq!(
        run("*", "any", &small_tree()),
        vec!["root/a.txt", "root/b", "root/b/a.txt", "root/b/c.log"]
    );
}

#[test]
fn search_twice_gives_the_same_result() {
    let tree = mixed_tree(true);
    assert_eq!(run("x*", "any", &tree), run("x*", "any", &tree));
    let f = finder("*.log", "any");
    assert_eq!(f.search_tree(&tree), f.search_tree(&tree));
}

#[test]
fn type_filters_split_the_any_result() {
    let tree = mixed_tree(true);
    let any = run("x*", "any", &tree);
    let files = run("x*", "file", &tree);
    let dirs = run("x*", "dir", &tree);
    let links = run("x*", "symlink", &tree);
    assert_eq!(files, vec!["root/xa", "root/x/y/x", "root/x/x.log", "root/z/x.log"]);
    assert_eq!(dirs, vec!["root/x"]);
    assert_eq!(links, vec!["root/x/y/x.log", "root/x2"]);
    assert_eq!(
        any,
        vec![
            "root/xa",
            "root/x",
            "root/x/y/x",
            "root/x/y/x.log",
            "root/x/x.log",
            "root/x/x.sock",
            "root/x2",
            "root/z/x.log"
        ]
    );
    for p in files.iter().chain(dirs.iter()).chain(links.iter()) {
        assert!(any.contains(p));
    }
    assert!(links.iter().all(|p| !files.contains(p) && !dirs.contains(p)));
    assert!(files.iter().all(|p| !dirs.contains(p)));
}

#[test]
fn unreadable_directory_is_skipped() {
    let full = run("x*", "any", &mixed_tree(true));
    let skipped = run("x*", "any", &mixed_tree(false));
    assert_eq!(skipped, vec!["root/xa", "root/x", "root/x2", "root/z/x.log"]);
    let kept: Vec<String> =
        full.into_iter().filter(|p| !p.starts_with("root/x/")).collect();
    assert_eq!(skipped, kept);
}

#[test]
fn deep_unreadable_directory_is_skipped() {
    let mut tree = mixed_tree(true);
    if let Some(x) = tree[1].listing.as_mut() {
        x[0].listing = None;
    }
    assert_eq!(
        run("x*", "any", &tree),
        vec!["root/xa", "root/x", "root/x/x.log", "root/x/x.sock", "root/x2", "root/z/x.log"]
    );
}

#[test]
fn undecodable_name_is_no_match_but_is_entered() {
    let tree = vec![TreeEntry {
        name: None,
        path: String::from("root/?"),
        kind: EntryKind::Directory,
        listing: Some(vec![file("root/?", "a")]),
    }];
    assert_eq!(run("*", "any", &tree), vec!["root/?/a"]);
}

#[test]
fn empty_tree_reports_nothing() {
    assert!(run("*", "any", &Vec::new()).is_empty());
}

#[test]
fn setup_errors() {
    assert!(matches!(Finder::new("a", "socket"), Err(FinderError::UnknownType)));
    assert!(matches!(Finder::new("(*", "any"), Err(FinderError::InvalidPattern(_))));
    assert!(matches!(Finder::new("(", "file"), Ok(_)));
}

fn shallow(es: &Vec<TreeEntry>) -> Vec<TreeEntry> {
    es.iter()
        .map(|e| TreeEntry {
            name: e.name.clone(),
            path: e.path.clone(),
            kind: e.kind,
            listing: None,
        })
        .collect()
}
fn find<'a>(es: &'a Vec<TreeEntry>, path: &str) -> Option<&'a TreeEntry> {
    for e in es {
        if e.path == path && e.kind == EntryKind::Directory {
            return Some(e);
        }
        if let Some(sub) = &e.listing {
            if let Some(x) = find(sub, path) {
                return Some(x);
            }
        }
    }
    None
}

/// Drives a walk as a caller that reads listings lazily would, taking each
/// listing from the in-memory tree.
fn drive(f: Finder, tree: &Vec<TreeEntry>) -> Vec<String> {
    let mut walk = Walk::new(f, shallow(tree));
    let mut out = Vec::new();
    while let Some(v) = walk.next() {
        if v.report {
            out.push(v.path.clone());
        }
        if v.descend {
            let listing = match find(tree, &v.path).and_then(|e| e.listing.as_ref()) {
                Some(sub) => shallow(sub),
                None => Vec::new(),
            };
            walk.enter(listing);
        }
    }
    out
}

#[test]
fn stepwise_walk_agrees_with_tree_search() {
    for readable in [true, false] {
        let tree = mixed_tree(readable);
        for (p, t) in [("x*", "any"), ("x*", "file"), ("*", "dir"), ("*.log", "symlink")] {
            assert_eq!(drive(finder(p, t), &tree), run(p, t, &tree), "{} {}", p, t);
        }
    }
    let small = small_tree();
    assert_eq!(drive(finder("a.txt", "any"), &small), vec!["root/a.txt", "root/b/a.txt"]);
}

#[test]
fn stepwise_walk_visits() {
    let mut walk = Walk::new(finder("b", "dir"), vec![file("root", "a"), dir("root", "b", None)]);
    let v = walk.next().unwrap();
    assert_eq!((v.path.as_str(), v.report, v.descend), ("root/a", false, false));
    let v = walk.next().unwrap();
    assert_eq!((v.path.as_str(), v.report, v.descend), ("root/b", true, true));
    walk.enter(vec![file("root/b", "b")]);
    let v = walk.next().unwrap();
    assert_eq!((v.path.as_str(), v.report, v.descend), ("root/b/b", false, false));
    assert!(walk.next().is_none());
    assert!(walk.next().is_none());
}
