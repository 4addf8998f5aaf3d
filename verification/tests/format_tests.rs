use niter::error::{Error, MapErrToNiterExt};
use niter::format::{create_project, format_project, ProjectFormatter};
use niter::fsmodel::{DirEntry, Node};
use niter::project::{Mod, Project};
use niter::source::Source;

fn file(name: &str, content: &str) -> DirEntry {
    DirEntry { name: name.to_string(), node: Node::File { content: content.to_string() } }
}

fn sample_project() -> Project {
    Project {
        name: "pack".to_string(),
        version: "1.2.3".to_string(),
        mods: vec![
            Mod::new(
                "foo".to_string(),
                Some("foo.jar".to_string()),
                Source::Download { url: "https://example.com/a/foo-1.0.jar".to_string() },
            ),
            Mod::new(
                "bar".to_string(),
                None,
                Source::Download { url: "https://example.com/b/bar.jar".to_string() },
            ),
        ],
    }
}

fn mod_fields(m: &Mod) -> (String, Option<String>, String) {
    let Source::Download { url } = &m.source;
    (m.name.clone(), m.file.clone(), url.clone())
}

#[test]
fn round_trip_two_mods() {
    let p = sample_project();
    let mut dir: Vec<DirEntry> = Vec::new();
    create_project(&p, &mut dir).unwrap();
    let q = format_project(&dir).unwrap();
    assert_eq!(q.name, "pack");
    assert_eq!(q.version, "1.2.3");
    assert_eq!(q.mods.len(), 2);
    for (a, b) in p.mods.iter().zip(q.mods.iter()) {
        assert_eq!(mod_fields(a), mod_fields(b));
    }
}

#[test]
fn round_trip_empty_project() {
    let p = Project::new("empty".to_string(), "0.1".to_string());
    let mut dir: Vec<DirEntry> = Vec::new();
    p.create(&mut dir).unwrap();
    let q = Project::format(&dir).unwrap();
    assert_eq!(q.name, "empty");
    assert_eq!(q.version, "0.1");
    assert!(q.mods.is_empty());
}

#[test]
fn missing_main_descriptor() {
    let dir: Vec<DirEntry> = Vec::new();
    assert_eq!(format_project(&dir).unwrap_err(), Error::MainFileNotFound);
}

#[test]
fn unsupported_format_tag() {
    let dir = vec![file("niter.json", "{\"format\":\"1.0\",\"name\":\"x\",\"version\":\"y\"}")];
    match format_project(&dir).unwrap_err() {
        Error::UnsupportedFormat(tag) => assert_eq!(tag, "1.0"),
        other => panic!("unexpected error: {:?}", other),
    }
}

#[test]
fn unsupported_format_tag_with_whitespace() {
    let dir = vec![file(
        "niter.json",
        "{\n  \"format\": \"1.0\",\n  \"name\": \"x\",\n  \"version\": \"y\"\n}",
    )];
    match format_project(&dir).unwrap_err() {
        Error::UnsupportedFormat(tag) => assert_eq!(tag, "1.0"),
        other => panic!("unexpected error: {:?}", other),
    }
}

#[test]
fn missing_format_field_is_content_error() {
    let dir = vec![file("niter.json", "{\"name\":\"x\",\"version\":\"y\"}")];
    assert!(matches!(format_project(&dir).unwrap_err(), Error::Serde(_)));
}

#[test]
fn mistyped_format_field_is_content_error() {
    let dir = vec![file("niter.json", "{\"format\":{},\"name\":\"x\",\"version\":\"y\"}")];
    assert!(matches!(format_project(&dir).unwrap_err(), Error::Serde(_)));
}

#[test]
fn malformed_main_descriptor_is_content_error() {
    let dir = vec![file("niter.json", "not json at all")];
    assert!(matches!(format_project(&dir).unwrap_err(), Error::Serde(_)));
}

#[test]
fn already_initiated_leaves_file_untouched() {
    let original = "{\"format\":\"0beta\",\"name\":\"old\",\"version\":\"0\"}";
    let mut dir = vec![file("niter.json", original)];
    let p = sample_project();
    assert_eq!(create_project(&p, &mut dir).unwrap_err(), Error::AlreadyInitiated);
    assert_eq!(dir.len(), 1);
    assert_eq!(dir[0].name, "niter.json");
    match &dir[0].node {
        Node::File { content } => assert_eq!(content, original),
        _ => panic!("main descriptor is no longer a file"),
    }
}

#[test]
fn mods_listing_empty_then_two() {
    let p = Project::new("pack".to_string(), "1".to_string());
    let mut dir: Vec<DirEntry> = Vec::new();
    let formatter = ProjectFormatter::create(&mut dir, &p).unwrap();
    assert!(formatter.mods(&dir).is_empty());

    let m = Mod::new(
        "foo".to_string(),
        None,
        Source::Download { url: "https://example.com/foo.jar".to_string() },
    );
    let n = Mod::new(
        "bar".to_string(),
        Some("bar.jar".to_string()),
        Source::Download { url: "https://example.com/bar.jar".to_string() },
    );
    formatter.create_mod(&mut dir, "foo", &m).unwrap();
    formatter.create_mod(&mut dir, "bar", &n).unwrap();
    let mut names = formatter.mods(&dir);
    names.sort();
    assert_eq!(names, vec!["bar".to_string(), "foo".to_string()]);
}

#[test]
fn mods_listing_skips_other_entries() {
    let p = Project::new("pack".to_string(), "1".to_string());
    let mut dir: Vec<DirEntry> = Vec::new();
    let formatter = ProjectFormatter::create(&mut dir, &p).unwrap();
    let m = Mod::new(
        "foo".to_string(),
        None,
        Source::Download { url: "https://example.com/foo.jar".to_string() },
    );
    formatter.create_mod(&mut dir, "foo", &m).unwrap();
    // plant a stray file and a subdirectory inside the mod store
    for e in dir.iter_mut() {
        if e.name == "mods" {
            if let Node::Dir { entries } = &mut e.node {
                entries.push(file("readme.txt", "hello"));
                entries.push(DirEntry {
                    name: "nested.json".to_string(),
                    node: Node::Dir { entries: Vec::new() },
                });
            }
        }
    }
    assert_eq!(formatter.mods(&dir), vec!["foo".to_string()]);
}

#[test]
fn format_mod_injects_identifier() {
    let p = Project::new("pack".to_string(), "1".to_string());
    let mut dir: Vec<DirEntry> = Vec::new();
    let formatter = ProjectFormatter::create(&mut dir, &p).unwrap();
    let m = Mod::new(
        "ignored-name".to_string(),
        Some("x.jar".to_string()),
        Source::Download { url: "https://example.com/x.jar".to_string() },
    );
    formatter.create_mod(&mut dir, "foo", &m).unwrap();
    let back = formatter.format_mod(&dir, "foo").unwrap();
    assert_eq!(back.name, "foo");
    assert_eq!(back.file.as_deref(), Some("x.jar"));
    let Source::Download { url } = &back.source;
    assert_eq!(url, "https://example.com/x.jar");
}

#[test]
fn format_mod_unknown_source_kind() {
    let p = Project::new("pack".to_string(), "1".to_string());
    let mut dir: Vec<DirEntry> = Vec::new();
    let formatter = ProjectFormatter::create(&mut dir, &p).unwrap();
    dir.push(DirEntry {
        name: "mods".to_string(),
        node: Node::Dir {
            entries: vec![file("odd.json", "{\"source\":{\"type\":\"torrent\",\"url\":\"x\"}}")],
        },
    });
    assert!(matches!(formatter.format_mod(&dir, "odd").unwrap_err(), Error::Serde(_)));
}

#[test]
fn format_mod_missing_descriptor() {
    let p = Project::new("pack".to_string(), "1".to_string());
    let mut dir: Vec<DirEntry> = Vec::new();
    let formatter = ProjectFormatter::create(&mut dir, &p).unwrap();
    match formatter.format_mod(&dir, "ghost").unwrap_err() {
        Error::IO(path, _) => assert_eq!(path, "mods/ghost.json"),
        other => panic!("unexpected error: {:?}", other),
    }
}

#[test]
fn remove_mod_deletes_exactly_one_descriptor() {
    let p = Project::new("pack".to_string(), "1".to_string());
    let mut dir: Vec<DirEntry> = Vec::new();
    let formatter = ProjectFormatter::create(&mut dir, &p).unwrap();
    let m = Mod::new(
        "foo".to_string(),
        None,
        Source::Download { url: "https://example.com/foo.jar".to_string() },
    );
    formatter.create_mod(&mut dir, "foo", &m).unwrap();
    formatter.create_mod(&mut dir, "bar", &m).unwrap();
    formatter.remove_mod(&mut dir, "foo").unwrap();
    assert_eq!(formatter.mods(&dir), vec!["bar".to_string()]);
    assert!(matches!(formatter.remove_mod(&mut dir, "foo").unwrap_err(), Error::IO(_, _)));
}

#[test]
fn create_mod_replaces_previous_descriptor() {
    let p = Project::new("pack".to_string(), "1".to_string());
    let mut dir: Vec<DirEntry> = Vec::new();
    let formatter = ProjectFormatter::create(&mut dir, &p).unwrap();
    let first = Mod::new(
        "foo".to_string(),
        None,
        Source::Download { url: "https://example.com/one.jar".to_string() },
    );
    let second = Mod::new(
        "foo".to_string(),
        Some("two.jar".to_string()),
        Source::Download { url: "https://example.com/two.jar".to_string() },
    );
    formatter.create_mod(&mut dir, "foo", &first).unwrap();
    formatter.create_mod(&mut dir, "foo", &second).unwrap();
    assert_eq!(formatter.mods(&dir), vec!["foo".to_string()]);
    let back = formatter.format_mod(&dir, "foo").unwrap();
    assert_eq!(back.file.as_deref(), Some("two.jar"));
}

#[test]
fn create_mod_rejects_separator_in_identifier() {
    let p = Project::new("pack".to_string(), "1".to_string());
    let mut dir: Vec<DirEntry> = Vec::new();
    let formatter = ProjectFormatter::create(&mut dir, &p).unwrap();
    let m = Mod::new(
        "a/b".to_string(),
        None,
        Source::Download { url: "https://example.com/x.jar".to_string() },
    );
    match formatter.create_mod(&mut dir, "a/b", &m).unwrap_err() {
        Error::IO(path, _) => assert_eq!(path, "mods/a/b.json"),
        other => panic!("unexpected error: {:?}", other),
    }
}

#[test]
fn create_mod_rejects_quote_in_url() {
    let p = Project::new("pack".to_string(), "1".to_string());
    let mut dir: Vec<DirEntry> = Vec::new();
    let formatter = ProjectFormatter::create(&mut dir, &p).unwrap();
    let m = Mod::new(
        "foo".to_string(),
        None,
        Source::Download { url: "https://example.com/\"x\".jar".to_string() },
    );
    assert!(matches!(formatter.create_mod(&mut dir, "foo", &m).unwrap_err(), Error::Serde(_)));
}

#[test]
fn create_project_rejects_control_character_in_name() {
    let p = Project::new("pa\nck".to_string(), "1".to_string());
    let mut dir: Vec<DirEntry> = Vec::new();
    assert!(matches!(create_project(&p, &mut dir).unwrap_err(), Error::Serde(_)));
    assert!(dir.is_empty());
}

#[test]
fn formatter_paths() {
    let p = Project::new("pack".to_string(), "1".to_string());
    let mut dir: Vec<DirEntry> = Vec::new();
    let formatter = ProjectFormatter::create(&mut dir, &p).unwrap();
    assert_eq!(formatter.mods_path(), "mods");
    assert_eq!(formatter.mod_path("foo"), "mods/foo.json");
}

#[test]
fn main_descriptor_text_is_canonical() {
    let p = Project::new("pack".to_string(), "1.2.3".to_string());
    let mut dir: Vec<DirEntry> = Vec::new();
    create_project(&p, &mut dir).unwrap();
    assert_eq!(dir.len(), 1);
    match &dir[0].node {
        Node::File { content } => {
            assert_eq!(content, "{\"format\":\"0beta\",\"name\":\"pack\",\"version\":\"1.2.3\"}")
        },
        _ => panic!("main descriptor is not a file"),
    }
}

#[test]
fn map_err_to_niter_attaches_the_path() {
    let failed: Result<i32, String> = Err("permission denied".to_string());
    match failed.map_err_to_niter("mods/a.json").unwrap_err() {
        Error::IO(path, cause) => {
            assert_eq!(path, "mods/a.json");
            assert_eq!(cause, "permission denied");
        },
        other => panic!("unexpected error: {:?}", other),
    }
    let fine: Result<i32, String> = Ok(7);
    assert_eq!(fine.map_err_to_niter("mods/a.json").unwrap(), 7);
}
