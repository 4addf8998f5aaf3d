use niter::builder::{build, build_installation, FetchOutcome};
use niter::error::Error;
use niter::fsmodel::{DirEntry, Node};
use niter::parse::{MainFileNotFound, NotADirectory, UnsupportedFormat};
use niter::project::{Mod, Project};
use niter::source::Source;

fn dl(url: &str) -> Source {
    Source::Download { url: url.to_string() }
}

fn project_with(mods: Vec<Mod>) -> Project {
    Project { name: "pack".to_string(), version: "1".to_string(), mods }
}

fn mods_dir_of(inst: &Node) -> &Vec<DirEntry> {
    match inst {
        Node::Dir { entries } => {
            assert_eq!(entries.len(), 1);
            assert_eq!(entries[0].name, "mods");
            match &entries[0].node {
                Node::Dir { entries } => entries,
                _ => panic!("mods is not a directory"),
            }
        },
        _ => panic!("installation is not a directory"),
    }
}

fn file_content(e: &DirEntry) -> &str {
    match &e.node {
        Node::File { content } => content,
        _ => panic!("{} is not a file", e.name),
    }
}

#[test]
fn build_two_mods_wipes_stale_state() {
    let p = project_with(vec![
        Mod::new("foo".to_string(), Some("foo.jar".to_string()), dl("https://example.com/a.jar")),
        Mod::new("bar".to_string(), None, dl("https://example.com/lib/bar-2.jar")),
    ]);
    let stale = Node::Dir {
        entries: vec![DirEntry {
            name: "stale.txt".to_string(),
            node: Node::File { content: "old".to_string() },
        }],
    };
    let mut slot = Some(stale);
    let outcomes = vec![
        FetchOutcome::Body("AAA".to_string()),
        FetchOutcome::Body("BBB".to_string()),
    ];
    build_installation(&p, &mut slot, &outcomes).unwrap();
    let inst = slot.expect("installation must exist after a build");
    let files = mods_dir_of(&inst);
    assert_eq!(files.len(), 2);
    assert_eq!(files[0].name, "foo.jar");
    assert_eq!(file_content(&files[0]), "AAA");
    assert_eq!(files[1].name, "bar-2.jar");
    assert_eq!(file_content(&files[1]), "BBB");
    // nothing named stale.txt survives anywhere
    match &inst {
        Node::Dir { entries } => assert!(entries.iter().all(|e| e.name != "stale.txt")),
        _ => unreachable!(),
    }
}

#[test]
fn build_replaces_a_plain_file_at_the_installation_path() {
    let p = project_with(vec![]);
    let mut slot = Some(Node::File { content: "junk".to_string() });
    build_installation(&p, &mut slot, &Vec::new()).unwrap();
    let inst = slot.unwrap();
    assert!(mods_dir_of(&inst).is_empty());
}

#[test]
fn failed_second_fetch_keeps_first_file_and_skips_third() {
    let p = project_with(vec![
        Mod::new("a".to_string(), Some("a.jar".to_string()), dl("https://example.com/a.jar")),
        Mod::new("b".to_string(), Some("b.jar".to_string()), dl("https://example.com/b.jar")),
        Mod::new("c".to_string(), Some("c.jar".to_string()), dl("https://example.com/c.jar")),
    ]);
    let mut slot = None;
    let outcomes = vec![
        FetchOutcome::Body("one".to_string()),
        FetchOutcome::Failed("connection reset".to_string()),
        FetchOutcome::Body("three".to_string()),
    ];
    match build_installation(&p, &mut slot, &outcomes).unwrap_err() {
        Error::Fetch(cause) => assert_eq!(cause, "connection reset"),
        other => panic!("unexpected error: {:?}", other),
    }
    let inst = slot.unwrap();
    let files = mods_dir_of(&inst);
    assert_eq!(files.len(), 1);
    assert_eq!(files[0].name, "a.jar");
    assert_eq!(file_content(&files[0]), "one");
}

#[test]
fn build_stops_on_unresolvable_source_name() {
    // no file override and no final path segment to derive a name from
    let p = project_with(vec![Mod::new("a".to_string(), None, dl("https://example.com"))]);
    let mut slot = None;
    let outcomes = vec![FetchOutcome::Body("one".to_string())];
    assert_eq!(build_installation(&p, &mut slot, &outcomes).unwrap_err(), Error::InvalidSource);
    assert!(mods_dir_of(&slot.unwrap()).is_empty());
}

#[test]
fn build_stops_on_malformed_url() {
    let p = project_with(vec![Mod::new(
        "a".to_string(),
        Some("a.jar".to_string()),
        dl("no scheme at all/a.jar"),
    )]);
    let mut slot = None;
    let outcomes = vec![FetchOutcome::Body("one".to_string())];
    assert!(matches!(
        build_installation(&p, &mut slot, &outcomes).unwrap_err(),
        Error::URL(_)
    ));
}

#[test]
fn build_populates_installation_entry_of_root() {
    let p = project_with(vec![Mod::new(
        "a".to_string(),
        Some("a.jar".to_string()),
        dl("https://example.com/a.jar"),
    )]);
    let mut root = vec![DirEntry {
        name: "niter.json".to_string(),
        node: Node::File { content: "kept".to_string() },
    }];
    let outcomes = vec![FetchOutcome::Body("body".to_string())];
    build(&p, &mut root, &outcomes).unwrap();
    assert_eq!(root.len(), 2);
    assert_eq!(root[0].name, "niter.json");
    assert_eq!(root[1].name, "installation");
    let files = mods_dir_of(&root[1].node);
    assert_eq!(files.len(), 1);
    assert_eq!(file_content(&files[0]), "body");
}

#[test]
fn file_override_always_wins() {
    let m = Mod::new(
        "a".to_string(),
        Some("x.jar".to_string()),
        dl("https://example.com/lib/other.jar"),
    );
    assert_eq!(m.file_or_source().unwrap(), "x.jar");
}

#[test]
fn file_name_derived_from_last_path_segment() {
    let m = Mod::new("a".to_string(), None, dl("https://example.com/lib/y-2.jar"));
    assert_eq!(m.file_or_source().unwrap(), "y-2.jar");
}

#[test]
fn file_name_underivable_without_path_segment() {
    let m = Mod::new("a".to_string(), None, dl("https://example.com"));
    assert_eq!(m.file_or_source().unwrap_err(), Error::InvalidSource);
    let t = Mod::new("a".to_string(), None, dl("https://example.com/dir/"));
    assert_eq!(t.file_or_source().unwrap_err(), Error::InvalidSource);
}

#[test]
fn resolve_url_accepts_a_well_formed_endpoint() {
    let s = dl("https://example.com/a.jar");
    assert_eq!(s.resolve_url().unwrap(), "https://example.com/a.jar");
}

#[test]
fn resolve_url_rejects_a_malformed_endpoint() {
    let s = dl("no scheme at all");
    assert!(matches!(s.resolve_url().unwrap_err(), Error::URL(_)));
}

#[test]
fn parse_failure_markers_describe_themselves() {
    assert_eq!(MainFileNotFound.describe(), "could not find 'niter.json'");
    assert_eq!(NotADirectory.describe(), "not a directory");
    assert_eq!(UnsupportedFormat("9.9".to_string()).describe(), "format '9.9' is not supported");
}
