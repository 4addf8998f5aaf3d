use vstd::prelude::*;
use crate::error::Error;
use crate::source::{Source, SourceV, spec_file_name};

verus! {

/// The mathematical value of a [`Mod`].
pub struct ModV {
    pub name: Seq<char>,
    pub file: Option<Seq<char>>,
    pub source: SourceV,
}

/// One declared artifact: an identifier, an optional file-name override, and
/// the source it is downloaded from. The identifier is never persisted inside
/// the mod's own descriptor; it is recovered from the descriptor's file name.
#[derive(Debug, Clone)]
pub struct Mod {
    pub name: String,
    pub file: Option<String>,
    pub source: Source,
}

impl View for Mod {
    type V = ModV;

    open spec fn view(&self) -> ModV {
        ModV {
            name: self.name@,
            file: match self.file {
                Some(f) => Some(f@),
                None => None,
            },
            source: self.source@,
        }
    }
}

/// The mathematical value of a [`Project`].
pub struct ProjectV {
    pub name: Seq<char>,
    pub version: Seq<char>,
    pub mods: Seq<ModV>,
}

/// A project: a name, a version, and an ordered list of mods.
#[derive(Debug, Clone)]
pub struct Project {
    pub name: String,
    pub version: String,
    pub mods: Vec<Mod>,
}

impl View for Project {
    type V = ProjectV;

    open spec fn view(&self) -> ProjectV {
        ProjectV {
            name: self.name@,
            version: self.version@,
            mods: Seq::new(self.mods@.len(), |i: int| self.mods@[i]@),
        }
    }
}

impl Project {
    /// A project with the given name and version and no mods yet.
    pub fn new(name: String, version: String) -> (r: Self)
        ensures
            r.name == name,
            r.version == version,
            r@.mods.len() == 0,
    {
        Project { name, version, mods: Vec::new() }
    }
}

impl Mod {
    /// A mod entry built in memory, before being persisted.
    pub fn new(name: String, file: Option<String>, source: Source) -> (r: Self)
        ensures
            r.name == name,
            r.file == file,
            r.source == source,
    {
        Mod { name, file, source }
    }

    /// The file name this mod is materialized under: the explicit override if
    /// present, else the name its source derives. The explicit override
    /// always wins.
    pub fn file_or_source(&self) -> (r: Result<String, Error>)
        ensures
            self.file matches Some(f) ==> (r matches Ok(g) && g@ == f@),
            self.file is None ==> match spec_file_name(self.source@) {
                Some(n) => r matches Ok(g) && g@ == n,
                None => r == Err::<String, Error>(Error::InvalidSource),
            },
    {
        match &self.file {
            Some(f) => Ok(f.clone()),
            None => self.source.derive_file_name(),
        }
    }
}

} // verus!

verus! {

impl Project {
    /// Assembles the project a directory declares; see
    /// [`crate::format::format_project`].
    pub fn format(dir: &Vec<crate::fsmodel::DirEntry>) -> (r: Result<Project, Error>)
        ensures
            match crate::format::spec_format_project(crate::fsmodel::entries_view(dir@)) {
                crate::format::ProjectOutcome::NoMain => r == Err::<Project, Error>(
                    Error::MainFileNotFound,
                ),
                crate::format::ProjectOutcome::MainIsDir => r matches Err(Error::IO(_, _)),
                crate::format::ProjectOutcome::MainBroken => r matches Err(Error::Serde(_)),
                crate::format::ProjectOutcome::MainUnsupported(tag) => r matches Err(
                    Error::UnsupportedFormat(t),
                ) && t@ == tag,
                crate::format::ProjectOutcome::ModMissing => r matches Err(Error::IO(_, _)),
                crate::format::ProjectOutcome::ModBroken => r matches Err(Error::Serde(_)),
                crate::format::ProjectOutcome::Assembled(pv) => r matches Ok(p) && p@ == pv,
            },
    {
        crate::format::format_project(dir)
    }

    /// Persists this project into a directory; see
    /// [`crate::format::create_project`].
    pub fn create(&self, dir: &mut Vec<crate::fsmodel::DirEntry>) -> (r: Result<(), Error>)
        ensures
            match crate::fsmodel::lookup(
                crate::fsmodel::entries_view(old(dir)@),
                crate::format::main_file_name(),
            ) {
                Some(_) => r matches Err(e) && e == Error::AlreadyInitiated && final(dir)@ == old(
                    dir,
                )@,
                None => {
                    if crate::format::main_encodable(self.name@, self.version@) {
                        {
                            let es1 = crate::fsmodel::store(
                                crate::fsmodel::entries_view(old(dir)@),
                                crate::format::main_file_name(),
                                (crate::fsmodel::NodeV::File {
                                    content: crate::format::main_text(self.name@, self.version@),
                                }),
                            );
                            let folded = crate::format::spec_create_mods(es1, self@.mods);
                            crate::fsmodel::entries_view(final(dir)@) == folded.0 && (match folded.1 {
                                None => r is Ok,
                                Some(crate::format::ModWriteErr::BadName) => r matches Err(
                                    Error::IO(_, _),
                                ),
                                Some(crate::format::ModWriteErr::NotEncodable) => r matches Err(
                                    Error::Serde(_),
                                ),
                                Some(crate::format::ModWriteErr::StoreIsFile) => r matches Err(
                                    Error::IO(_, _),
                                ),
                            })
                        }
                    } else {
                        r matches Err(Error::Serde(_)) && final(dir)@ == old(dir)@
                    }
                },
            },
    {
        crate::format::create_project(self, dir)
    }
}

} // verus!
