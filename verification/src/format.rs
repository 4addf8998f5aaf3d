use vstd::prelude::*;
use crate::error::Error;
use crate::fsmodel::{
    DirEntry, Node, NodeV, EntryV, entries_view, lookup, store, drop_entry, lemma_entries_view,
    find_entry, has_entry, read_file, put_in_subdir, remove_from_subdir, subdir_entries,
    lemma_lookup_at_index, lemma_lookup_absent, lemma_lookup_store_same, lemma_lookup_store_other,
    lemma_store_absent,
};
use crate::json::{
    JsonDoc, JsonDocV, JsonField, JsonValue, JsonValueV, LeafMember, doc_get, leaf_get, parse_doc,
    parse_doc_exec, render_doc_v, render_doc_exec, encodable, is_encodable, plain_char,
    plain_char_exec, doc_get_exec, leaf_get_exec, value_encodable, doc_encodable,
};
use crate::project::{Mod, ModV, Project, ProjectV};
use crate::source::{Source, SourceV, spec_endpoint};
use crate::text::{str_eq, ends_with, spec_ends_with};

verus! {

/// The single format tag this build reads and writes.
pub open spec fn supported_tag() -> Seq<char> {
    "0beta"@
}

/// The name of the main descriptor file inside a project directory.
pub open spec fn main_file_name() -> Seq<char> {
    "niter.json"@
}

/// The persisted form of the project's top-level metadata. The mod list is
/// never part of it.
#[derive(Debug)]
pub struct MainFile {
    pub format: String,
    pub name: String,
    pub version: String,
}

impl MainFile {
    /// The main descriptor derived from a project: the supported tag plus the
    /// project's name and version.
    pub fn from_project(value: &Project) -> (r: MainFile)
        ensures
            r.format@ == supported_tag(),
            r.name@ == value.name@,
            r.version@ == value.version@,
    {
        MainFile {
            format: String::from_str("0beta"),
            name: value.name.clone(),
            version: value.version.clone(),
        }
    }
}

/// The document a main file serializes to.
pub open spec fn main_doc(format: Seq<char>, name: Seq<char>, version: Seq<char>) -> JsonDocV {
    JsonDocV {
        fields: seq![
            ("format"@, JsonValueV::Str(format)),
            ("name"@, JsonValueV::Str(name)),
            ("version"@, JsonValueV::Str(version)),
        ],
    }
}

/// The document a mod serializes to: the optional file override, then the
/// source as a tagged flat object. The mod's identifier is never serialized.
pub open spec fn mod_doc(file: Option<Seq<char>>, url: Seq<char>) -> JsonDocV {
    JsonDocV {
        fields: (match file {
            Some(f) => seq![("file"@, JsonValueV::Str(f))],
            None => Seq::empty(),
        }) + seq![
            ("source"@, JsonValueV::Obj(seq![("type"@, "download"@), ("url"@, url)])),
        ],
    }
}

/// The canonical text of a main descriptor.
pub open spec fn main_text(name: Seq<char>, version: Seq<char>) -> Seq<char> {
    render_doc_v(main_doc(supported_tag(), name, version))
}

/// The canonical text of a mod descriptor.
pub open spec fn mod_text(m: ModV) -> Seq<char> {
    render_doc_v(mod_doc(m.file, spec_endpoint(m.source)))
}

/// Whether a project's top-level strings fit the codec.
pub open spec fn main_encodable(name: Seq<char>, version: Seq<char>) -> bool {
    encodable(name) && encodable(version)
}

/// Whether a mod's persisted strings fit the codec.
pub open spec fn mod_encodable(m: ModV) -> bool {
    (m.file matches Some(f) ==> encodable(f)) && encodable(spec_endpoint(m.source))
}

/// What the version gate and typed read make of a main descriptor's text.
pub enum MainOutcome {
    /// Structurally broken content, or a missing or mistyped field.
    Broken,
    /// A well-formed descriptor declaring an unsupported tag; carries the tag.
    Unsupported(Seq<char>),
    /// A supported descriptor: its name and version.
    Main(Seq<char>, Seq<char>),
}

/// The two-phase read of a main descriptor: parse untyped, gate the declared
/// format tag, then extract the typed fields.
pub open spec fn main_file_outcome(text: Seq<char>) -> MainOutcome {
    match parse_doc(text) {
        None => MainOutcome::Broken,
        Some(d) => match doc_get(d.fields, "format"@) {
            Some(JsonValueV::Str(tag)) => {
                if tag == supported_tag() {
                    match doc_get(d.fields, "name"@) {
                        Some(JsonValueV::Str(nm)) => match doc_get(d.fields, "version"@) {
                            Some(JsonValueV::Str(vr)) => MainOutcome::Main(nm, vr),
                            _ => MainOutcome::Broken,
                        },
                        _ => MainOutcome::Broken,
                    }
                } else {
                    MainOutcome::Unsupported(tag)
                }
            },
            _ => MainOutcome::Broken,
        },
    }
}

/// What the typed read makes of a mod descriptor's text.
pub enum ModOutcome {
    /// Structurally broken content, or a missing or mistyped field.
    Broken,
    /// A well-formed descriptor: the optional file override and the source's
    /// endpoint.
    Entry(Option<Seq<char>>, Seq<char>),
}

/// The typed read of a mod descriptor: an optional "file" string and a
/// "source" object tagged as a download.
pub open spec fn mod_file_outcome(text: Seq<char>) -> ModOutcome {
    match parse_doc(text) {
        None => ModOutcome::Broken,
        Some(d) => match doc_get(d.fields, "source"@) {
            Some(JsonValueV::Obj(ms)) => match leaf_get(ms, "type"@) {
                Some(t) => {
                    if t == "download"@ {
                        match leaf_get(ms, "url"@) {
                            Some(u) => match doc_get(d.fields, "file"@) {
                                None => ModOutcome::Entry(None, u),
                                Some(JsonValueV::Str(f)) => ModOutcome::Entry(Some(f), u),
                                Some(JsonValueV::Obj(_)) => ModOutcome::Broken,
                            },
                            None => ModOutcome::Broken,
                        }
                    } else {
                        ModOutcome::Broken
                    }
                },
                None => ModOutcome::Broken,
            },
            _ => ModOutcome::Broken,
        },
    }
}

/// Why writing one mod's descriptor can fail.
pub enum ModWriteErr {
    /// The identifier cannot serve as a file name.
    BadName,
    /// A persisted string does not fit the codec.
    NotEncodable,
    /// A plain file stands where the mod store would be.
    StoreIsFile,
}

/// What writing one mod's descriptor does to a project directory.
pub open spec fn spec_create_mod(es: Seq<EntryV>, name: Seq<char>, m: ModV) -> Result<
    Seq<EntryV>,
    ModWriteErr,
> {
    if !valid_mod_name(name) {
        Err(ModWriteErr::BadName)
    } else if !mod_encodable(m) {
        Err(ModWriteErr::NotEncodable)
    } else {
        match lookup(es, mods_dir_name()) {
            Some(NodeV::File { .. }) => Err(ModWriteErr::StoreIsFile),
            Some(NodeV::Dir { entries: sd }) => Ok(
                store(
                    es,
                    mods_dir_name(),
                    (NodeV::Dir {
                        entries: store(
                            sd,
                            mod_file_name_v(name),
                            (NodeV::File { content: mod_text(m) }),
                        ),
                    }),
                ),
            ),
            None => Ok(
                store(
                    es,
                    mods_dir_name(),
                    (NodeV::Dir {
                        entries: store(
                            Seq::empty(),
                            mod_file_name_v(name),
                            (NodeV::File { content: mod_text(m) }),
                        ),
                    }),
                ),
            ),
        }
    }
}

/// Why reading one mod's descriptor can fail.
pub enum ReadErr {
    /// No descriptor file exists for the identifier.
    Missing,
    /// The descriptor's content is broken.
    Broken,
}

/// What reading one mod's descriptor yields from a project directory.
pub open spec fn spec_format_mod(es: Seq<EntryV>, name: Seq<char>) -> Result<ModV, ReadErr> {
    match subdir_entries(es, mods_dir_name()) {
        None => Err(ReadErr::Missing),
        Some(sd) => match lookup(sd, mod_file_name_v(name)) {
            Some(NodeV::File { content }) => match mod_file_outcome(content) {
                ModOutcome::Broken => Err(ReadErr::Broken),
                ModOutcome::Entry(file, url) => Ok(
                    ModV { name, file, source: SourceV::Download { url } },
                ),
            },
            _ => Err(ReadErr::Missing),
        },
    }
}

/// Reads and gates the main descriptor of the directory.
fn format_main_file(entries: &Vec<DirEntry>) -> (r: Result<MainFile, Error>)
    ensures
        match lookup(entries_view(entries@), main_file_name()) {
            None => r == Err::<MainFile, Error>(Error::MainFileNotFound),
            Some(NodeV::Dir { .. }) => r matches Err(Error::IO(p, _)) && p@ == main_file_name(),
            Some(NodeV::File { content }) => match main_file_outcome(content) {
                MainOutcome::Broken => r matches Err(Error::Serde(_)),
                MainOutcome::Unsupported(tag) => r matches Err(Error::UnsupportedFormat(t)) && t@
                    == tag,
                MainOutcome::Main(nm, vr) => r matches Ok(mf) && mf.format@ == supported_tag()
                    && mf.name@ == nm && mf.version@ == vr,
            },
        },
{
    if !has_entry(entries, "niter.json") {
        return Err(Error::MainFileNotFound);
    }
    match read_file(entries, "niter.json") {
        None => Err(
            Error::IO(
                String::from_str("niter.json"),
                String::from_str("is a directory, not a descriptor file"),
            ),
        ),
        Some(content) => match parse_doc_exec(content.as_str()) {
            None => Err(Error::Serde(String::from_str("malformed main descriptor"))),
            Some(doc) => {
                let tag = match doc_get_exec(&doc, "format") {
                    Some(JsonValue::Str(t)) => t.clone(),
                    _ => {
                        return Err(
                            Error::Serde(String::from_str("missing or mistyped format field")),
                        );
                    },
                };
                if !str_eq(tag.as_str(), "0beta") {
                    return Err(Error::UnsupportedFormat(tag));
                }
                let nm = match doc_get_exec(&doc, "name") {
                    Some(JsonValue::Str(t)) => t.clone(),
                    _ => {
                        return Err(
                            Error::Serde(String::from_str("missing or mistyped name field")),
                        );
                    },
                };
                let vr = match doc_get_exec(&doc, "version") {
                    Some(JsonValue::Str(t)) => t.clone(),
                    _ => {
                        return Err(
                            Error::Serde(String::from_str("missing or mistyped version field")),
                        );
                    },
                };
                Ok(MainFile { format: tag, name: nm, version: vr })
            },
        },
    }
}

/// Writes a fresh main descriptor; refuses to overwrite an existing one.
fn create_main_file(entries: &mut Vec<DirEntry>, main_file: &MainFile) -> (r: Result<(), Error>)
    ensures
        match lookup(entries_view(old(entries)@), main_file_name()) {
            Some(_) => r == Err::<(), Error>(Error::AlreadyInitiated) && final(entries)@ == old(
                entries,
            )@,
            None => {
                if main_encodable(main_file.name@, main_file.version@) && main_file.format@
                    == supported_tag() {
                    r is Ok && entries_view(final(entries)@) == store(
                        entries_view(old(entries)@),
                        main_file_name(),
                        (NodeV::File { content: main_text(main_file.name@, main_file.version@) }),
                    )
                } else {
                    r matches Err(Error::Serde(_)) && final(entries)@ == old(entries)@
                }
            },
        },
{
    if has_entry(entries, "niter.json") {
        return Err(Error::AlreadyInitiated);
    }
    if !(is_encodable(main_file.name.as_str()) && is_encodable(main_file.version.as_str())
        && str_eq(main_file.format.as_str(), "0beta")) {
        return Err(
            Error::Serde(String::from_str("descriptor strings must be plain printable ASCII")),
        );
    }
    let mut fields: Vec<JsonField> = Vec::new();
    fields.push(
        JsonField { key: String::from_str("format"), value: JsonValue::Str(String::from_str("0beta")) },
    );
    fields.push(
        JsonField { key: String::from_str("name"), value: JsonValue::Str(main_file.name.clone()) },
    );
    fields.push(
        JsonField {
            key: String::from_str("version"),
            value: JsonValue::Str(main_file.version.clone()),
        },
    );
    let doc = JsonDoc { fields };
    proof {
        assert(doc@.fields =~= main_doc(supported_tag(), main_file.name@, main_file.version@).fields);
        assert(doc@ == main_doc(supported_tag(), main_file.name@, main_file.version@));
    }
    let text = render_doc_exec(&doc);
    crate::fsmodel::put_entry(entries, String::from_str("niter.json"), Node::File { content: text });
    Ok(())
}

} // verus!

verus! {

/// The relative path of the mod store inside a project directory.
pub open spec fn mods_dir_name() -> Seq<char> {
    "mods"@
}

/// The file name a mod's descriptor is stored under inside the mod store.
pub open spec fn mod_file_name_v(name: Seq<char>) -> Seq<char> {
    name + ".json"@
}

/// The relative path of a mod's descriptor inside the project directory.
pub open spec fn mod_path_v(name: Seq<char>) -> Seq<char> {
    "mods/"@ + name + ".json"@
}

/// An identifier that can serve as a descriptor file's base name: nonempty,
/// plain printable ASCII, and free of path separators.
pub open spec fn valid_mod_name(n: Seq<char>) -> bool {
    n.len() > 0 && forall|i: int| 0 <= i < n.len() ==> plain_char(#[trigger] n[i]) && n[i] != '/'
}

/// Whether a mod-store entry is a mod descriptor: a file whose name carries
/// the descriptor extension around a nonempty base name.
pub open spec fn is_descriptor(e: EntryV) -> bool {
    e.node is File && spec_ends_with(e.name, ".json"@) && e.name.len() > ".json"@.len()
}

/// The identifier a descriptor entry stands for: its base name.
pub open spec fn descriptor_stem(e: EntryV) -> Seq<char> {
    e.name.take(e.name.len() - ".json"@.len())
}

/// The identifiers of all descriptor entries, in entry order.
pub open spec fn mod_names(es: Seq<EntryV>) -> Seq<Seq<char>>
    decreases es.len(),
{
    if es.len() == 0 {
        Seq::empty()
    } else if is_descriptor(es[0]) {
        seq![descriptor_stem(es[0])] + mod_names(es.drop_first())
    } else {
        mod_names(es.drop_first())
    }
}

/// One entry appended on the right extends the identifier list on the right.
pub proof fn lemma_mod_names_snoc(es: Seq<EntryV>, e: EntryV)
    ensures
        mod_names(es.push(e)) =~= mod_names(es) + (if is_descriptor(e) {
            seq![descriptor_stem(e)]
        } else {
            Seq::<Seq<char>>::empty()
        }),
    decreases es.len(),
{
    reveal_with_fuel(mod_names, 3);
    if es.len() == 0 {
        assert(es.push(e).drop_first() =~= Seq::<EntryV>::empty());
        assert(es.push(e)[0] == e);
    } else {
        lemma_mod_names_snoc(es.drop_first(), e);
        assert(es.push(e).drop_first() =~= es.drop_first().push(e));
        assert(es.push(e)[0] == es[0]);
    }
}

/// A formatter bound to a project directory whose main descriptor passed the
/// version gate (or was just written by it).
#[derive(Debug)]
pub struct ProjectFormatter {
    pub main_file: MainFile,
}

impl ProjectFormatter {
    /// Binds to an existing project directory: reads and gates its main
    /// descriptor.
    pub fn format(dir: &Vec<DirEntry>) -> (r: Result<ProjectFormatter, Error>)
        ensures
            match lookup(entries_view(dir@), main_file_name()) {
                None => r == Err::<ProjectFormatter, Error>(Error::MainFileNotFound),
                Some(NodeV::Dir { .. }) => r matches Err(Error::IO(p, _)) && p@
                    == main_file_name(),
                Some(NodeV::File { content }) => match main_file_outcome(content) {
                    MainOutcome::Broken => r matches Err(Error::Serde(_)),
                    MainOutcome::Unsupported(tag) => r matches Err(Error::UnsupportedFormat(t))
                        && t@ == tag,
                    MainOutcome::Main(nm, vr) => r matches Ok(f) && f.main_file.format@
                        == supported_tag() && f.main_file.name@ == nm && f.main_file.version@
                        == vr,
                },
            },
    {
        match format_main_file(dir) {
            Ok(mf) => Ok(ProjectFormatter { main_file: mf }),
            Err(e) => Err(e),
        }
    }

    /// Starts a fresh project directory: writes its main descriptor, refusing
    /// to overwrite an existing one.
    pub fn create(dir: &mut Vec<DirEntry>, project: &Project) -> (r: Result<ProjectFormatter, Error>)
        ensures
            match lookup(entries_view(old(dir)@), main_file_name()) {
                Some(_) => r matches Err(e) && e == Error::AlreadyInitiated && final(dir)@ == old(
                    dir,
                )@,
                None => {
                    if main_encodable(project.name@, project.version@) {
                        (r matches Ok(f) && f.main_file.format@ == supported_tag()
                            && f.main_file.name@ == project.name@ && f.main_file.version@
                            == project.version@) && entries_view(final(dir)@) == store(
                            entries_view(old(dir)@),
                            main_file_name(),
                            (NodeV::File { content: main_text(project.name@, project.version@) }),
                        )
                    } else {
                        r matches Err(Error::Serde(_)) && final(dir)@ == old(dir)@
                    }
                },
            },
    {
        let mf = MainFile::from_project(project);
        match create_main_file(dir, &mf) {
            Ok(()) => Ok(ProjectFormatter { main_file: mf }),
            Err(e) => Err(e),
        }
    }

    /// The relative path of the mod store.
    pub fn mods_path(&self) -> (r: String)
        ensures
            r@ == mods_dir_name(),
    {
        String::from_str("mods")
    }

    /// The relative path of one mod's descriptor.
    pub fn mod_path(&self, name: &str) -> (r: String)
        ensures
            r@ == mod_path_v(name@),
    {
        let mut p = String::from_str("mods/");
        p.append(name);
        p.append(".json");
        p
    }

    /// The identifiers of the mods the directory declares, in entry order:
    /// the base name of every descriptor file in the mod store. A missing mod
    /// store means no mods; so does a plain file standing where the mod store
    /// would be.
    pub fn mods(&self, dir: &Vec<DirEntry>) -> (r: Vec<String>)
        ensures
            match subdir_entries(entries_view(dir@), mods_dir_name()) {
                Some(sd) => Seq::new(r@.len(), |i: int| r@[i]@) == mod_names(sd),
                None => r@.len() == 0,
            },
    {
        proof {
            lemma_entries_view(dir@);
        }
        let mut out: Vec<String> = Vec::new();
        match find_entry(dir, "mods") {
            None => {
                proof {
                    lemma_lookup_absent(entries_view(dir@), "mods"@);
                }
                out
            },
            Some(i) => {
                proof {
                    lemma_lookup_at_index(entries_view(dir@), "mods"@, i as int);
                }
                match &dir[i].node {
                    Node::File { .. } => out,
                    Node::Dir { entries } => {
                        let ghost sd = entries_view(entries@);
                        proof {
                            lemma_entries_view(entries@);
                            reveal_strlit(".json");
                        }
                        let mut j: usize = 0;
                        while j < entries.len()
                            invariant
                                j <= entries@.len(),
                                sd == entries_view(entries@),
                                sd.len() == entries@.len(),
                                forall|k: int| 0 <= k < entries@.len() ==> sd[k] == entries@[k]@,
                                ".json"@.len() == 5,
                                Seq::new(out@.len(), |k: int| out@[k]@) == mod_names(
                                    sd.take(j as int),
                                ),
                            decreases entries@.len() - j,
                        {
                            let ghost sofar = Seq::new(out@.len(), |k: int| out@[k]@);
                            let is_file = match &entries[j].node {
                                Node::File { .. } => true,
                                Node::Dir { .. } => false,
                            };
                            let nm = &entries[j].name;
                            let l = nm.as_str().unicode_len();
                            if is_file && l > 5 && ends_with(nm.as_str(), ".json") {
                                let stem = nm.as_str().substring_char(0, l - 5).to_owned();
                                proof {
                                    assert(stem@ =~= descriptor_stem(sd[j as int]));
                                }
                                out.push(stem);
                            }
                            proof {
                                assert(sd.take(j + 1) =~= sd.take(j as int).push(sd[j as int]));
                                lemma_mod_names_snoc(sd.take(j as int), sd[j as int]);
                                assert(Seq::new(out@.len(), |k: int| out@[k]@) =~= mod_names(
                                    sd.take(j + 1),
                                ));
                            }
                            j += 1;
                        }
                        proof {
                            assert(sd.take(sd.len() as int) =~= sd);
                        }
                        out
                    },
                }
            },
        }
    }

    /// Reads and parses one mod's descriptor, injecting `name` as the mod's
    /// identifier; the identifier is never part of the file's content.
    pub fn format_mod(&self, dir: &Vec<DirEntry>, name: &str) -> (r: Result<Mod, Error>)
        ensures
            match spec_format_mod(entries_view(dir@), name@) {
                Ok(mv) => r matches Ok(m) && m@ == mv,
                Err(ReadErr::Missing) => r matches Err(Error::IO(p, _)) && p@ == mod_path_v(name@),
                Err(ReadErr::Broken) => r matches Err(Error::Serde(_)),
            },
    {
        proof {
            lemma_entries_view(dir@);
        }
        let missing = Error::IO(
            self.mod_path(name),
            String::from_str("no descriptor file for this mod"),
        );
        match find_entry(dir, "mods") {
            None => {
                proof {
                    lemma_lookup_absent(entries_view(dir@), "mods"@);
                }
                Err(missing)
            },
            Some(i) => {
                proof {
                    lemma_lookup_at_index(entries_view(dir@), "mods"@, i as int);
                }
                match &dir[i].node {
                    Node::File { .. } => Err(missing),
                    Node::Dir { entries } => {
                        let fname = name.to_owned().concat(".json");
                        match read_file(entries, fname.as_str()) {
                            None => Err(missing),
                            Some(content) => match parse_doc_exec(content.as_str()) {
                                None => Err(
                                    Error::Serde(String::from_str("malformed mod descriptor")),
                                ),
                                Some(doc) => {
                                    let url = match doc_get_exec(&doc, "source") {
                                        Some(JsonValue::Obj(ms)) => {
                                            let tag_ok = match leaf_get_exec(ms, "type") {
                                                Some(t) => str_eq(t.as_str(), "download"),
                                                None => false,
                                            };
                                            if !tag_ok {
                                                return Err(
                                                    Error::Serde(
                                                        String::from_str("unknown source kind"),
                                                    ),
                                                );
                                            }
                                            match leaf_get_exec(ms, "url") {
                                                Some(u) => u.clone(),
                                                None => {
                                                    return Err(
                                                        Error::Serde(
                                                            String::from_str(
                                                                "source lacks an url",
                                                            ),
                                                        ),
                                                    );
                                                },
                                            }
                                        },
                                        _ => {
                                            return Err(
                                                Error::Serde(
                                                    String::from_str(
                                                        "missing or mistyped source field",
                                                    ),
                                                ),
                                            );
                                        },
                                    };
                                    let file = match doc_get_exec(&doc, "file") {
                                        None => None,
                                        Some(JsonValue::Str(f)) => Some(f.clone()),
                                        Some(JsonValue::Obj(_)) => {
                                            return Err(
                                                Error::Serde(
                                                    String::from_str("mistyped file field"),
                                                ),
                                            );
                                        },
                                    };
                                    Ok(
                                        Mod {
                                            name: name.to_owned(),
                                            file,
                                            source: Source::Download { url },
                                        },
                                    )
                                },
                            },
                        }
                    },
                }
            },
        }
    }

    /// Writes one mod's descriptor into the mod store, creating the store if
    /// absent and replacing any previous descriptor of the same name.
    pub fn create_mod(&self, dir: &mut Vec<DirEntry>, name: &str, mod_data: &Mod) -> (r: Result<
        (),
        Error,
    >)
        ensures
            match spec_create_mod(entries_view(old(dir)@), name@, mod_data@) {
                Ok(es2) => r is Ok && entries_view(final(dir)@) == es2,
                Err(ModWriteErr::BadName) => (r matches Err(Error::IO(p, _)) && p@ == mod_path_v(
                    name@,
                )) && final(dir)@ == old(dir)@,
                Err(ModWriteErr::NotEncodable) => r matches Err(Error::Serde(_)) && final(dir)@
                    == old(dir)@,
                Err(ModWriteErr::StoreIsFile) => r matches Err(Error::IO(_, _)) && final(dir)@
                    == old(dir)@,
            },
    {
        let n = name.unicode_len();
        let mut ok = n > 0;
        let mut i: usize = 0;
        while i < n
            invariant
                i <= n,
                n == name@.len(),
                ok == (n > 0 && forall|j: int|
                    0 <= j < i ==> plain_char(#[trigger] name@[j]) && name@[j] != '/'),
            decreases n - i,
        {
            let c = name.get_char(i);
            if !plain_char_exec(c) || c == '/' {
                ok = false;
            }
            i += 1;
        }
        if !ok {
            return Err(
                Error::IO(self.mod_path(name), String::from_str("invalid mod identifier")),
            );
        }
        let url_ok = match &mod_data.source {
            Source::Download { url } => is_encodable(url.as_str()),
        };
        let file_ok = match &mod_data.file {
            Some(f) => is_encodable(f.as_str()),
            None => true,
        };
        if !(url_ok && file_ok) {
            return Err(
                Error::Serde(String::from_str("descriptor strings must be plain printable ASCII")),
            );
        }
        let mut fields: Vec<JsonField> = Vec::new();
        match &mod_data.file {
            Some(f) => fields.push(
                JsonField { key: String::from_str("file"), value: JsonValue::Str(f.clone()) },
            ),
            None => {},
        }
        let mut ms: Vec<LeafMember> = Vec::new();
        ms.push(LeafMember { key: String::from_str("type"), value: String::from_str("download") });
        match &mod_data.source {
            Source::Download { url } => ms.push(
                LeafMember { key: String::from_str("url"), value: url.clone() },
            ),
        }
        let ghost urlv = spec_endpoint(mod_data@.source);
        let ghost innerv = Seq::new(ms@.len(), |i: int| ms@[i]@);
        proof {
            assert(innerv =~= seq![("type"@, "download"@), ("url"@, urlv)]);
        }
        fields.push(JsonField { key: String::from_str("source"), value: JsonValue::Obj(ms) });
        let doc = JsonDoc { fields };
        proof {
            let mdoc = mod_doc(mod_data@.file, urlv);
            match mod_data@.file {
                Some(f) => {
                    assert(mdoc.fields =~= seq![
                        ("file"@, JsonValueV::Str(f)),
                        ("source"@, JsonValueV::Obj(innerv)),
                    ]);
                    assert(doc@.fields[0] == ("file"@, JsonValueV::Str(f)));
                    assert(doc@.fields[1] == ("source"@, JsonValueV::Obj(innerv)));
                },
                None => {
                    assert(mdoc.fields =~= seq![("source"@, JsonValueV::Obj(innerv))]);
                    assert(doc@.fields[0] == ("source"@, JsonValueV::Obj(innerv)));
                },
            }
            assert(doc@.fields =~= mdoc.fields);
            assert(doc@ == mod_doc(mod_data@.file, spec_endpoint(mod_data@.source)));
        }
        let text = render_doc_exec(&doc);
        let fname = name.to_owned().concat(".json");
        if put_in_subdir(dir, "mods", fname, Node::File { content: text }) {
            Ok(())
        } else {
            Err(
                Error::IO(
                    self.mods_path(),
                    String::from_str("a plain file stands where the mod store would be"),
                ),
            )
        }
    }

    /// Deletes one mod's descriptor from the mod store.
    pub fn remove_mod(&self, dir: &mut Vec<DirEntry>, name: &str) -> (r: Result<(), Error>)
        ensures
            match subdir_entries(entries_view(old(dir)@), mods_dir_name()) {
                Some(sd) => {
                    if lookup(sd, mod_file_name_v(name@)) is Some {
                        r is Ok && entries_view(final(dir)@) == store(
                            entries_view(old(dir)@),
                            mods_dir_name(),
                            (NodeV::Dir { entries: drop_entry(sd, mod_file_name_v(name@)) }),
                        )
                    } else {
                        (r matches Err(Error::IO(p, _)) && p@ == mod_path_v(name@))
                            && entries_view(final(dir)@) == entries_view(old(dir)@)
                    }
                },
                None => (r matches Err(Error::IO(p, _)) && p@ == mod_path_v(name@)) && final(dir)@
                    == old(dir)@,
            },
    {
        let fname = name.to_owned().concat(".json");
        if remove_from_subdir(dir, "mods", fname.as_str()) {
            Ok(())
        } else {
            Err(Error::IO(self.mod_path(name), String::from_str("no descriptor file to remove")))
        }
    }
}

} // verus!

verus! {

/// What writing every mod of a list does, in order, stopping at the first
/// failure: the directory state reached and the failure if one occurred.
pub open spec fn spec_create_mods(es: Seq<EntryV>, mods: Seq<ModV>) -> (Seq<EntryV>, Option<
    ModWriteErr,
>)
    decreases mods.len(),
{
    if mods.len() == 0 {
        (es, None)
    } else {
        match spec_create_mod(es, mods[0].name, mods[0]) {
            Ok(es2) => spec_create_mods(es2, mods.drop_first()),
            Err(k) => (es, Some(k)),
        }
    }
}

/// Persists a whole project: its main descriptor, then one descriptor per
/// mod, in manifest order, stopping at the first failure. Earlier writes are
/// not rolled back.
#[verifier::loop_isolation(false)]
pub fn create_project(project: &Project, dir: &mut Vec<DirEntry>) -> (r: Result<(), Error>)
    ensures
        match lookup(entries_view(old(dir)@), main_file_name()) {
            Some(_) => r matches Err(e) && e == Error::AlreadyInitiated && final(dir)@ == old(
                dir,
            )@,
            None => {
                if main_encodable(project.name@, project.version@) {
                    {
                        let es1 = store(
                            entries_view(old(dir)@),
                            main_file_name(),
                            (NodeV::File {
                                content: main_text(project.name@, project.version@),
                            }),
                        );
                        let folded = spec_create_mods(es1, project@.mods);
                        entries_view(final(dir)@) == folded.0 && (match folded.1 {
                            None => r is Ok,
                            Some(ModWriteErr::BadName) => r matches Err(Error::IO(_, _)),
                            Some(ModWriteErr::NotEncodable) => r matches Err(Error::Serde(_)),
                            Some(ModWriteErr::StoreIsFile) => r matches Err(Error::IO(_, _)),
                        })
                    }
                } else {
                    r matches Err(Error::Serde(_)) && final(dir)@ == old(dir)@
                }
            },
        },
{
    let formatter = match ProjectFormatter::create(dir, project) {
        Ok(f) => f,
        Err(e) => {
            return Err(e);
        },
    };
    let ghost es1 = entries_view(dir@);
    let ghost modsv = project@.mods;
    let ghost folded = spec_create_mods(es1, modsv);
    proof {
        assert(modsv.skip(0int) =~= modsv);
    }
    let mut i: usize = 0;
    while i < project.mods.len()
        invariant
            i <= project.mods@.len(),
            modsv == project@.mods,
            modsv.len() == project.mods@.len(),
            forall|k: int| 0 <= k < modsv.len() ==> modsv[k] == project.mods@[k]@,
            folded == spec_create_mods(es1, modsv),
            spec_create_mods(entries_view(dir@), modsv.skip(i as int)) == folded,
        decreases project.mods@.len() - i,
    {
        let ghost cur = entries_view(dir@);
        proof {
            assert(modsv.skip(i as int)[0] == modsv[i as int]);
            assert(modsv.skip(i as int).drop_first() =~= modsv.skip(i + 1));
        }
        match formatter.create_mod(dir, project.mods[i].name.as_str(), &project.mods[i]) {
            Ok(()) => {},
            Err(e) => {
                proof {
                    match spec_create_mod(cur, modsv[i as int].name, modsv[i as int]) {
                        Ok(_) => {
                            assert(false);
                        },
                        Err(k) => {
                            assert(spec_create_mods(cur, modsv.skip(i as int)) == (
                                cur,
                                Some(k),
                            ));
                            assert(entries_view(dir@) == cur);
                        },
                    }
                }
                return Err(e);
            },
        }
        i += 1;
    }
    proof {
        assert(modsv.skip(modsv.len() as int) =~= Seq::<ModV>::empty());
    }
    Ok(())
}

/// What the names listed by the mod store are, for a whole directory.
pub open spec fn spec_mod_names(es: Seq<EntryV>) -> Seq<Seq<char>> {
    match subdir_entries(es, mods_dir_name()) {
        Some(sd) => mod_names(sd),
        None => Seq::empty(),
    }
}

/// What reading the descriptors of the named mods yields, in order, stopping
/// at the first failure.
pub open spec fn spec_format_mods(es: Seq<EntryV>, names: Seq<Seq<char>>) -> Result<
    Seq<ModV>,
    ReadErr,
>
    decreases names.len(),
{
    if names.len() == 0 {
        Ok(Seq::empty())
    } else {
        match spec_format_mod(es, names[0]) {
            Ok(m) => match spec_format_mods(es, names.drop_first()) {
                Ok(rest) => Ok(seq![m] + rest),
                Err(k) => Err(k),
            },
            Err(k) => Err(k),
        }
    }
}

/// What assembling a whole project from a directory yields.
pub enum ProjectOutcome {
    /// The main descriptor file is absent.
    NoMain,
    /// A directory stands where the main descriptor file would be.
    MainIsDir,
    /// The main descriptor's content is broken.
    MainBroken,
    /// The main descriptor declares an unsupported tag; carries the tag.
    MainUnsupported(Seq<char>),
    /// A listed mod's descriptor disappeared between listing and reading.
    ModMissing,
    /// A mod descriptor's content is broken.
    ModBroken,
    /// The assembled project.
    Assembled(ProjectV),
}

/// The whole read path: gate the main descriptor, list the mod store, read
/// every descriptor in entry order.
pub open spec fn spec_format_project(es: Seq<EntryV>) -> ProjectOutcome {
    match lookup(es, main_file_name()) {
        None => ProjectOutcome::NoMain,
        Some(NodeV::Dir { .. }) => ProjectOutcome::MainIsDir,
        Some(NodeV::File { content }) => match main_file_outcome(content) {
            MainOutcome::Broken => ProjectOutcome::MainBroken,
            MainOutcome::Unsupported(tag) => ProjectOutcome::MainUnsupported(tag),
            MainOutcome::Main(nm, vr) => match spec_format_mods(es, spec_mod_names(es)) {
                Ok(ms) => ProjectOutcome::Assembled(ProjectV { name: nm, version: vr, mods: ms }),
                Err(ReadErr::Missing) => ProjectOutcome::ModMissing,
                Err(ReadErr::Broken) => ProjectOutcome::ModBroken,
            },
        },
    }
}

/// Assembles the whole project a directory declares: the gated main
/// descriptor plus one mod per descriptor file in the mod store.
#[verifier::loop_isolation(false)]
pub fn format_project(dir: &Vec<DirEntry>) -> (r: Result<Project, Error>)
    ensures
        match spec_format_project(entries_view(dir@)) {
            ProjectOutcome::NoMain => r == Err::<Project, Error>(Error::MainFileNotFound),
            ProjectOutcome::MainIsDir => r matches Err(Error::IO(_, _)),
            ProjectOutcome::MainBroken => r matches Err(Error::Serde(_)),
            ProjectOutcome::MainUnsupported(tag) => r matches Err(Error::UnsupportedFormat(t))
                && t@ == tag,
            ProjectOutcome::ModMissing => r matches Err(Error::IO(_, _)),
            ProjectOutcome::ModBroken => r matches Err(Error::Serde(_)),
            ProjectOutcome::Assembled(pv) => r matches Ok(p) && p@ == pv,
        },
{
    let formatter = match ProjectFormatter::format(dir) {
        Ok(f) => f,
        Err(e) => {
            return Err(e);
        },
    };
    let names = formatter.mods(dir);
    let ghost es = entries_view(dir@);
    let ghost namesv = Seq::new(names@.len(), |i: int| names@[i]@);
    proof {
        assert(namesv =~= spec_mod_names(es));
    }
    let mut mods: Vec<Mod> = Vec::new();
    proof {
        assert(namesv.skip(0int) =~= namesv);
        match spec_format_mods(es, namesv) {
            Ok(rest) => {
                assert(Seq::new(mods@.len(), |k: int| mods@[k]@) =~= Seq::<ModV>::empty());
                assert(Seq::<ModV>::empty() + rest =~= rest);
            },
            Err(_) => {},
        }
    }
    let mut i: usize = 0;
    while i < names.len()
        invariant
            i <= names@.len(),
            es == entries_view(dir@),
            namesv == Seq::new(names@.len(), |k: int| names@[k]@),
            namesv.len() == names@.len(),
            forall|k: int| 0 <= k < namesv.len() ==> namesv[k] == names@[k]@,
            match spec_format_mods(es, namesv.skip(i as int)) {
                Ok(rest) => spec_format_mods(es, namesv) == Ok::<Seq<ModV>, ReadErr>(
                    Seq::new(mods@.len(), |k: int| mods@[k]@) + rest,
                ),
                Err(k) => spec_format_mods(es, namesv) == Err::<Seq<ModV>, ReadErr>(k),
            },
        decreases names@.len() - i,
    {
        let ghost sofar = Seq::new(mods@.len(), |k: int| mods@[k]@);
        proof {
            assert(namesv.skip(i as int)[0] == namesv[i as int]);
            assert(namesv.skip(i as int).drop_first() =~= namesv.skip(i + 1));
        }
        match formatter.format_mod(dir, names[i].as_str()) {
            Ok(m) => {
                let ghost mv = m@;
                mods.push(m);
                proof {
                    assert(Seq::new(mods@.len(), |k: int| mods@[k]@) =~= sofar.push(mv));
                    match spec_format_mods(es, namesv.skip(i + 1)) {
                        Ok(rest2) => {
                            assert(sofar.push(mv) + rest2 =~= sofar + (seq![mv] + rest2));
                        },
                        Err(_) => {},
                    }
                }
            },
            Err(e) => {
                proof {
                    match spec_format_mod(es, namesv[i as int]) {
                        Ok(_) => {
                            assert(false);
                        },
                        Err(k) => {
                            assert(spec_format_mods(es, namesv.skip(i as int)) == Err::<
                                Seq<ModV>,
                                ReadErr,
                            >(k));
                        },
                    }
                }
                return Err(e);
            },
        }
        i += 1;
    }
    proof {
        assert(namesv.skip(namesv.len() as int) =~= Seq::<Seq<char>>::empty());
        assert(Seq::new(mods@.len(), |k: int| mods@[k]@) + Seq::<ModV>::empty() =~= Seq::new(
            mods@.len(),
            |k: int| mods@[k]@,
        ));
    }
    let p = Project { name: formatter.main_file.name, version: formatter.main_file.version, mods };
    proof {
        assert(p@.mods =~= Seq::new(p.mods@.len(), |k: int| p.mods@[k]@));
    }
    Ok(p)
}

} // verus!

verus! {

/// The fixed key and tag literals of the format are plain ASCII.
proof fn lemma_literals_encodable()
    ensures
        encodable("format"@),
        encodable("name"@),
        encodable("version"@),
        encodable("0beta"@),
        encodable("file"@),
        encodable("source"@),
        encodable("type"@),
        encodable("download"@),
        encodable("url"@),
{
    reveal_strlit("format");
    reveal_strlit("name");
    reveal_strlit("version");
    reveal_strlit("0beta");
    reveal_strlit("file");
    reveal_strlit("source");
    reveal_strlit("type");
    reveal_strlit("download");
    reveal_strlit("url");
    assert("format"@ =~= seq!['f', 'o', 'r', 'm', 'a', 't']);
    assert("name"@ =~= seq!['n', 'a', 'm', 'e']);
    assert("version"@ =~= seq!['v', 'e', 'r', 's', 'i', 'o', 'n']);
    assert("0beta"@ =~= seq!['0', 'b', 'e', 't', 'a']);
    assert("file"@ =~= seq!['f', 'i', 'l', 'e']);
    assert("source"@ =~= seq!['s', 'o', 'u', 'r', 'c', 'e']);
    assert("type"@ =~= seq!['t', 'y', 'p', 'e']);
    assert("download"@ =~= seq!['d', 'o', 'w', 'n', 'l', 'o', 'a', 'd']);
    assert("url"@ =~= seq!['u', 'r', 'l']);
    assert forall|i: int| 0 <= i < "format"@.len() implies plain_char(#[trigger] "format"@[i]) by {}
    assert forall|i: int| 0 <= i < "name"@.len() implies plain_char(#[trigger] "name"@[i]) by {}
    assert forall|i: int| 0 <= i < "version"@.len() implies plain_char(
        #[trigger] "version"@[i],
    ) by {}
    assert forall|i: int| 0 <= i < "0beta"@.len() implies plain_char(#[trigger] "0beta"@[i]) by {}
    assert forall|i: int| 0 <= i < "file"@.len() implies plain_char(#[trigger] "file"@[i]) by {}
    assert forall|i: int| 0 <= i < "source"@.len() implies plain_char(#[trigger] "source"@[i]) by {}
    assert forall|i: int| 0 <= i < "type"@.len() implies plain_char(#[trigger] "type"@[i]) by {}
    assert forall|i: int| 0 <= i < "download"@.len() implies plain_char(
        #[trigger] "download"@[i],
    ) by {}
    assert forall|i: int| 0 <= i < "url"@.len() implies plain_char(#[trigger] "url"@[i]) by {}
}

/// The version gate accepts a written main descriptor, whose typed read
/// yields its name and version.
pub proof fn lemma_main_outcome_of_render(nm: Seq<char>, vr: Seq<char>)
    requires
        main_encodable(nm, vr),
    ensures
        main_file_outcome(main_text(nm, vr)) == MainOutcome::Main(nm, vr),
{
    reveal_with_fuel(doc_get, 4);
    lemma_literals_encodable();
    reveal_strlit("format");
    reveal_strlit("name");
    reveal_strlit("version");
    reveal_strlit("0beta");
    let d = main_doc(supported_tag(), nm, vr);
    assert forall|i: int|
        0 <= i < d.fields.len() implies encodable((#[trigger] d.fields[i]).0) && value_encodable(
        d.fields[i].1,
    ) by {
        if i == 0 {
        } else if i == 1 {
        } else {
            assert(d.fields[i] == ("version"@, JsonValueV::Str(vr)));
        }
    }
    crate::json::lemma_parse_render_doc(d);
    assert("name"@ != "format"@);
    assert("version"@ != "format"@);
    assert("version"@ != "name"@);
    assert(d.fields.drop_first() =~= seq![
        ("name"@, JsonValueV::Str(nm)),
        ("version"@, JsonValueV::Str(vr)),
    ]);
    assert(d.fields.drop_first().drop_first() =~= seq![("version"@, JsonValueV::Str(vr))]);
    assert(doc_get(d.fields, "format"@) == Some(JsonValueV::Str(supported_tag())));
    assert(doc_get(d.fields, "name"@) == Some(JsonValueV::Str(nm)));
    assert(doc_get(d.fields, "version"@) == Some(JsonValueV::Str(vr)));
}

/// A written mod descriptor reads back as its override and endpoint.
pub proof fn lemma_mod_outcome_of_render(m: ModV)
    requires
        mod_encodable(m),
    ensures
        mod_file_outcome(mod_text(m)) == ModOutcome::Entry(m.file, spec_endpoint(m.source)),
{
    reveal_with_fuel(doc_get, 3);
    reveal_with_fuel(leaf_get, 3);
    lemma_literals_encodable();
    reveal_strlit("file");
    reveal_strlit("source");
    reveal_strlit("type");
    reveal_strlit("url");
    let url = spec_endpoint(m.source);
    let ms = seq![("type"@, "download"@), ("url"@, url)];
    let d = mod_doc(m.file, url);
    assert("file"@ != "source"@);
    assert("url"@ != "type"@);
    assert(value_encodable(JsonValueV::Obj(ms))) by {
        assert forall|i: int|
            0 <= i < ms.len() implies encodable((#[trigger] ms[i]).0) && encodable(ms[i].1) by {
            if i == 0 {
            } else {
                assert(ms[i] == ("url"@, url));
            }
        }
    }
    assert(leaf_get(ms, "type"@) == Some("download"@));
    assert(ms.drop_first() =~= seq![("url"@, url)]);
    assert(leaf_get(ms, "url"@) == Some(url));
    match m.file {
        Some(f) => {
            assert(d.fields =~= seq![
                ("file"@, JsonValueV::Str(f)),
                ("source"@, JsonValueV::Obj(ms)),
            ]);
            assert forall|i: int|
                0 <= i < d.fields.len() implies encodable((#[trigger] d.fields[i]).0)
                    && value_encodable(d.fields[i].1) by {
                if i == 0 {
                } else {
                    assert(d.fields[i] == ("source"@, JsonValueV::Obj(ms)));
                }
            }
            crate::json::lemma_parse_render_doc(d);
            assert(d.fields.drop_first() =~= seq![("source"@, JsonValueV::Obj(ms))]);
            assert(doc_get(d.fields, "source"@) == Some(JsonValueV::Obj(ms)));
            assert(doc_get(d.fields, "file"@) == Some(JsonValueV::Str(f)));
        },
        None => {
            assert(d.fields =~= seq![("source"@, JsonValueV::Obj(ms))]);
            assert forall|i: int|
                0 <= i < d.fields.len() implies encodable((#[trigger] d.fields[i]).0)
                    && value_encodable(d.fields[i].1) by {
                assert(d.fields[i] == ("source"@, JsonValueV::Obj(ms)));
            }
            crate::json::lemma_parse_render_doc(d);
            assert(doc_get(d.fields, "source"@) == Some(JsonValueV::Obj(ms)));
            assert(d.fields.drop_first() =~= Seq::<(Seq<char>, JsonValueV)>::empty());
            assert(doc_get(d.fields, "file"@) is None);
        },
    }
}

} // verus!

verus! {

/// Every mod of the list can be written: valid identifier, plain strings.
pub open spec fn mods_writable(mods: Seq<ModV>) -> bool {
    forall|i: int|
        0 <= i < mods.len() ==> valid_mod_name((#[trigger] mods[i]).name) && mod_encodable(mods[i])
}

/// No two mods of the list share an identifier.
pub open spec fn mods_distinct(mods: Seq<ModV>) -> bool {
    forall|i: int, j: int|
        0 <= i < j < mods.len() ==> (#[trigger] mods[i]).name != (#[trigger] mods[j]).name
}

/// The descriptor entries that writing the mods, in order, adds to an
/// initially empty mod store.
pub open spec fn descriptor_entries(mods: Seq<ModV>) -> Seq<EntryV> {
    Seq::new(
        mods.len(),
        |i: int|
            EntryV {
                name: mod_file_name_v(mods[i].name),
                node: NodeV::File { content: mod_text(mods[i]) },
            },
    )
}

/// Distinct identifiers give distinct descriptor file names.
pub proof fn lemma_file_names_distinct(a: Seq<char>, b: Seq<char>)
    requires
        a != b,
    ensures
        mod_file_name_v(a) != mod_file_name_v(b),
{
    if mod_file_name_v(a) == mod_file_name_v(b) {
        assert((a + ".json"@).len() == a.len() + ".json"@.len());
        assert((b + ".json"@).len() == b.len() + ".json"@.len());
        assert(a.len() == b.len());
        assert(a =~= mod_file_name_v(a).take(a.len() as int));
        assert(b =~= mod_file_name_v(b).take(b.len() as int));
    }
}

/// The contents of the mod store after writing the mods in order.
pub open spec fn built_sd(sd: Seq<EntryV>, mods: Seq<ModV>) -> Seq<EntryV>
    decreases mods.len(),
{
    if mods.len() == 0 {
        sd
    } else {
        built_sd(
            store(
                sd,
                mod_file_name_v(mods[0].name),
                (NodeV::File { content: mod_text(mods[0]) }),
            ),
            mods.drop_first(),
        )
    }
}

/// Writing a writable mod list into a directory whose mod store is `sd` (or
/// absent, standing for an empty store) succeeds, fills the store in order,
/// and touches no other entry.
pub proof fn lemma_create_mods_ok(es: Seq<EntryV>, sd: Seq<EntryV>, mods: Seq<ModV>)
    requires
        mods_writable(mods),
        lookup(es, mods_dir_name()) == Some(NodeV::Dir { entries: sd }) || (lookup(
            es,
            mods_dir_name(),
        ) is None && sd =~= Seq::<EntryV>::empty()),
    ensures
        spec_create_mods(es, mods).1 is None,
        mods.len() > 0 ==> lookup(spec_create_mods(es, mods).0, mods_dir_name()) == Some(
            NodeV::Dir { entries: built_sd(sd, mods) },
        ),
        mods.len() == 0 ==> spec_create_mods(es, mods).0 == es,
        forall|n: Seq<char>|
            n != mods_dir_name() ==> #[trigger] lookup(spec_create_mods(es, mods).0, n) == lookup(
                es,
                n,
            ),
    decreases mods.len(),
{
    reveal_with_fuel(built_sd, 3);
    if mods.len() > 0 {
        let m0 = mods[0];
        assert(valid_mod_name(m0.name) && mod_encodable(m0));
        let sd2 = store(sd, mod_file_name_v(m0.name), (NodeV::File { content: mod_text(m0) }));
        let es2 = store(es, mods_dir_name(), (NodeV::Dir { entries: sd2 }));
        assert(spec_create_mod(es, m0.name, m0) == Ok::<Seq<EntryV>, ModWriteErr>(es2));
        lemma_lookup_store_same(es, mods_dir_name(), (NodeV::Dir { entries: sd2 }));
        assert forall|i: int|
            0 <= i < mods.drop_first().len() implies valid_mod_name(
            (#[trigger] mods.drop_first()[i]).name,
        ) && mod_encodable(mods.drop_first()[i]) by {
            assert(mods.drop_first()[i] == mods[i + 1]);
        }
        lemma_create_mods_ok(es2, sd2, mods.drop_first());
        assert(spec_create_mods(es, mods) == spec_create_mods(es2, mods.drop_first()));
        if mods.drop_first().len() == 0 {
            assert(built_sd(sd, mods) == sd2);
        }
        assert forall|n: Seq<char>|
            n != mods_dir_name() implies #[trigger] lookup(spec_create_mods(es, mods).0, n)
            == lookup(es, n) by {
            lemma_lookup_store_other(es, mods_dir_name(), (NodeV::Dir { entries: sd2 }), n);
        }
    }
}

/// Writing mods whose descriptor names are fresh appends their descriptors in
/// order.
pub proof fn lemma_built_sd_appends(sd: Seq<EntryV>, mods: Seq<ModV>)
    requires
        mods_distinct(mods),
        forall|j: int, i: int|
            0 <= j < sd.len() && 0 <= i < mods.len() ==> (#[trigger] sd[j]).name
                != mod_file_name_v((#[trigger] mods[i]).name),
    ensures
        built_sd(sd, mods) =~= sd + descriptor_entries(mods),
    decreases mods.len(),
{
    if mods.len() == 0 {
        assert(sd + descriptor_entries(mods) =~= sd);
    } else {
        let m0 = mods[0];
        let e0 = EntryV {
            name: mod_file_name_v(m0.name),
            node: NodeV::File { content: mod_text(m0) },
        };
        assert forall|j: int| 0 <= j < sd.len() implies (#[trigger] sd[j]).name != e0.name by {}
        lemma_store_absent(sd, e0.name, e0.node);
        assert(store(sd, e0.name, e0.node) =~= sd.push(e0));
        assert forall|i: int, j: int|
            0 <= i < j < mods.drop_first().len() implies (#[trigger] mods.drop_first()[i]).name
                != (#[trigger] mods.drop_first()[j]).name by {
            assert(mods.drop_first()[i] == mods[i + 1]);
            assert(mods.drop_first()[j] == mods[j + 1]);
        }
        assert forall|j: int, i: int|
            0 <= j < sd.push(e0).len() && 0 <= i < mods.drop_first().len() implies (#[trigger] sd.push(
            e0,
        )[j]).name != mod_file_name_v((#[trigger] mods.drop_first()[i]).name) by {
            assert(mods.drop_first()[i] == mods[i + 1]);
            if j < sd.len() {
                assert(sd.push(e0)[j] == sd[j]);
            } else {
                assert(sd.push(e0)[j] == e0);
                assert(m0.name != mods[i + 1].name);
                lemma_file_names_distinct(m0.name, mods[i + 1].name);
            }
        }
        lemma_built_sd_appends(sd.push(e0), mods.drop_first());
        assert(descriptor_entries(mods.drop_first()) =~= descriptor_entries(mods).drop_first());
        assert(built_sd(sd, mods) =~= sd.push(e0) + descriptor_entries(mods).drop_first());
        assert(descriptor_entries(mods)[0] == e0);
        assert(sd.push(e0) + descriptor_entries(mods).drop_first() =~= sd + descriptor_entries(
            mods,
        ));
    }
}

/// The identifiers listed from the written descriptors are exactly the mods'
/// identifiers, in order.
pub proof fn lemma_mod_names_of_descriptors(mods: Seq<ModV>)
    requires
        mods_writable(mods),
    ensures
        mod_names(descriptor_entries(mods)) =~= Seq::new(mods.len(), |i: int| mods[i].name),
    decreases mods.len(),
{
    reveal_strlit(".json");
    assert(".json"@.len() == 5);
    if mods.len() > 0 {
        let m0 = mods[0];
        let e0 = descriptor_entries(mods)[0];
        assert(valid_mod_name(m0.name) && mod_encodable(m0));
        assert(e0.name =~= m0.name + ".json"@);
        assert(e0.name.subrange(e0.name.len() - 5, e0.name.len() as int) =~= ".json"@);
        assert(is_descriptor(e0));
        assert(descriptor_stem(e0) =~= m0.name);
        assert forall|i: int|
            0 <= i < mods.drop_first().len() implies valid_mod_name(
            (#[trigger] mods.drop_first()[i]).name,
        ) && mod_encodable(mods.drop_first()[i]) by {
            assert(mods.drop_first()[i] == mods[i + 1]);
        }
        lemma_mod_names_of_descriptors(mods.drop_first());
        assert(descriptor_entries(mods).drop_first() =~= descriptor_entries(mods.drop_first()));
        assert(mod_names(descriptor_entries(mods)) =~= seq![m0.name] + mod_names(
            descriptor_entries(mods.drop_first()),
        ));
        assert(seq![m0.name] + Seq::new(mods.drop_first().len(), |i: int| mods.drop_first()[i].name)
            =~= Seq::new(mods.len(), |i: int| mods[i].name));
    }
}

/// Reading back the written descriptors, name by name, yields the mods.
pub proof fn lemma_format_fold(es: Seq<EntryV>, mods: Seq<ModV>, i: int)
    requires
        0 <= i <= mods.len(),
        mods_writable(mods),
        mods_distinct(mods),
        subdir_entries(es, mods_dir_name()) == Some(descriptor_entries(mods)),
    ensures
        spec_format_mods(es, Seq::new(mods.len(), |k: int| mods[k].name).skip(i)) == Ok::<
            Seq<ModV>,
            ReadErr,
        >(mods.skip(i)),
    decreases mods.len() - i,
{
    let names = Seq::new(mods.len(), |k: int| mods[k].name);
    if i == mods.len() {
        assert(names.skip(i) =~= Seq::<Seq<char>>::empty());
        assert(mods.skip(i) =~= Seq::<ModV>::empty());
    } else {
        let mi = mods[i];
        let desc = descriptor_entries(mods);
        assert(names.skip(i)[0] == mi.name);
        assert forall|k: int| 0 <= k < i implies desc[k].name != mod_file_name_v(mi.name) by {
            assert(mods[k].name != mi.name);
            lemma_file_names_distinct(mods[k].name, mi.name);
        }
        lemma_lookup_at_index(desc, mod_file_name_v(mi.name), i);
        assert(desc[i].node == NodeV::File { content: mod_text(mi) });
        lemma_mod_outcome_of_render(mi);
        assert(spec_format_mod(es, mi.name) == Ok::<ModV, ReadErr>(
            ModV { name: mi.name, file: mi.file, source: SourceV::Download { url: spec_endpoint(mi.source) } },
        ));
        match mi.source {
            SourceV::Download { url } => {
                assert(SourceV::Download { url: spec_endpoint(mi.source) } == mi.source);
            },
        }
        assert(ModV { name: mi.name, file: mi.file, source: mi.source } == mi);
        lemma_format_fold(es, mods, i + 1);
        assert(names.skip(i).drop_first() =~= names.skip(i + 1));
        assert(seq![mi] + mods.skip(i + 1) =~= mods.skip(i));
    }
}

/// The round trip: persisting a well-formed project into a directory that
/// holds neither a main descriptor nor a mod store succeeds, and assembling
/// that directory yields the project back — name, version, and mod list, with
/// order, field values and identifiers preserved.
pub proof fn lemma_create_then_format(es0: Seq<EntryV>, p: ProjectV)
    requires
        lookup(es0, main_file_name()) is None,
        lookup(es0, mods_dir_name()) is None,
        main_encodable(p.name, p.version),
        mods_writable(p.mods),
        mods_distinct(p.mods),
    ensures
        ({
            let es1 = store(
                es0,
                main_file_name(),
                (NodeV::File { content: main_text(p.name, p.version) }),
            );
            let folded = spec_create_mods(es1, p.mods);
            folded.1 is None && spec_format_project(folded.0) == ProjectOutcome::Assembled(p)
        }),
{
    reveal_strlit("niter.json");
    reveal_strlit("mods");
    assert("niter.json"@ =~= seq!['n', 'i', 't', 'e', 'r', '.', 'j', 's', 'o', 'n']);
    assert("mods"@ =~= seq!['m', 'o', 'd', 's']);
    assert(main_file_name() != mods_dir_name());
    let mt = main_text(p.name, p.version);
    let es1 = store(es0, main_file_name(), (NodeV::File { content: mt }));
    lemma_lookup_store_same(es0, main_file_name(), (NodeV::File { content: mt }));
    lemma_lookup_store_other(es0, main_file_name(), (NodeV::File { content: mt }), mods_dir_name());
    lemma_main_outcome_of_render(p.name, p.version);
    lemma_create_mods_ok(es1, Seq::empty(), p.mods);
    let folded = spec_create_mods(es1, p.mods);
    if p.mods.len() == 0 {
        assert(folded.0 == es1);
        assert(spec_mod_names(es1) =~= Seq::<Seq<char>>::empty());
        assert(spec_format_mods(es1, spec_mod_names(es1)) == Ok::<Seq<ModV>, ReadErr>(
            Seq::empty(),
        ));
        assert(p.mods =~= Seq::<ModV>::empty());
        assert(ProjectV { name: p.name, version: p.version, mods: p.mods } == p);
    } else {
        assert(lookup(folded.0, main_file_name()) == Some(NodeV::File { content: mt }));
        lemma_built_sd_appends(Seq::empty(), p.mods);
        assert(built_sd(Seq::empty(), p.mods) =~= descriptor_entries(p.mods));
        assert(Seq::<EntryV>::empty() + descriptor_entries(p.mods) =~= descriptor_entries(p.mods));
        assert(lookup(folded.0, mods_dir_name()) == Some(NodeV::Dir { entries: descriptor_entries(p.mods) }));
        lemma_mod_names_of_descriptors(p.mods);
        let names = Seq::new(p.mods.len(), |k: int| p.mods[k].name);
        assert(spec_mod_names(folded.0) == mod_names(descriptor_entries(p.mods)));
        assert(spec_mod_names(folded.0) == names);
        lemma_format_fold(folded.0, p.mods, 0);
        assert(names.skip(0int) =~= names);
        assert(p.mods.skip(0int) =~= p.mods);
        assert(spec_format_mods(folded.0, spec_mod_names(folded.0)) == Ok::<Seq<ModV>, ReadErr>(
            p.mods,
        ));
        assert(ProjectV { name: p.name, version: p.version, mods: p.mods } == p);
    }
}

} // verus!
