use vstd::prelude::*;
use crate::error::Error;
use crate::fsmodel::{DirEntry, Node, NodeV, EntryV, entries_view, lemma_entries_view, store, put_entry};
use crate::project::{Mod, ModV, Project};
use crate::source::{spec_endpoint, spec_file_name, url_parse_accepts};

verus! {

/// What one fetch of a resolved URL produced: the whole response body as
/// text, or the reported cause of failure. The build consumes one outcome per
/// mod, in manifest order; outcomes past the first failure are never looked
/// at, mirroring a pipeline that stops fetching at the first failure.
#[derive(Debug)]
pub enum FetchOutcome {
    Body(String),
    Failed(String),
}

/// The mathematical value of a [`FetchOutcome`].
pub enum FetchOutcomeV {
    Body(Seq<char>),
    Failed(Seq<char>),
}

impl View for FetchOutcome {
    type V = FetchOutcomeV;

    open spec fn view(&self) -> FetchOutcomeV {
        match self {
            FetchOutcome::Body(b) => FetchOutcomeV::Body(b@),
            FetchOutcome::Failed(c) => FetchOutcomeV::Failed(c@),
        }
    }
}

/// The file name a mod is materialized under: the explicit override if
/// present, else the name its source derives, if it derives one.
pub open spec fn spec_target_name(m: ModV) -> Option<Seq<char>> {
    match m.file {
        Some(f) => Some(f),
        None => spec_file_name(m.source),
    }
}

/// Why a build stops early.
pub enum BuildStop {
    /// A source yields no canonical file name.
    BadSource,
    /// A source's endpoint is not a well-formed URL.
    BadUrl,
    /// A fetch failed.
    FetchFailed,
}

/// What materializing the mods does to the installation's mod directory,
/// strictly in manifest order and stopping at the first failure: the files
/// written, and the failure if one occurred. Files already written stay.
pub open spec fn spec_build_mods(
    sd: Seq<EntryV>,
    mods: Seq<ModV>,
    outs: Seq<FetchOutcomeV>,
) -> (Seq<EntryV>, Option<BuildStop>)
    decreases mods.len(),
{
    if mods.len() == 0 || outs.len() == 0 {
        (sd, None)
    } else {
        match spec_target_name(mods[0]) {
            None => (sd, Some(BuildStop::BadSource)),
            Some(fname) => {
                if !url_parse_accepts(spec_endpoint(mods[0].source)) {
                    (sd, Some(BuildStop::BadUrl))
                } else {
                    match outs[0] {
                        FetchOutcomeV::Failed(_) => (sd, Some(BuildStop::FetchFailed)),
                        FetchOutcomeV::Body(b) => spec_build_mods(
                            store(sd, fname, (NodeV::File { content: b })),
                            mods.drop_first(),
                            outs.drop_first(),
                        ),
                    }
                }
            },
        }
    }
}

/// Materializes every mod into the mod directory being built: resolves its
/// target name and its URL, consumes its fetch outcome, writes the body.
#[verifier::loop_isolation(false)]
fn build_mods(mods: &Vec<Mod>, outcomes: &Vec<FetchOutcome>, built: &mut Vec<DirEntry>) -> (r:
    Result<(), Error>)
    requires
        outcomes@.len() == mods@.len(),
        old(built)@.len() == 0,
    ensures
        ({
            let folded = spec_build_mods(
                Seq::empty(),
                Seq::new(mods@.len(), |i: int| mods@[i]@),
                Seq::new(outcomes@.len(), |i: int| outcomes@[i]@),
            );
            entries_view(final(built)@) == folded.0 && (match folded.1 {
                None => r is Ok,
                Some(BuildStop::BadSource) => r == Err::<(), Error>(Error::InvalidSource),
                Some(BuildStop::BadUrl) => r matches Err(Error::URL(_)),
                Some(BuildStop::FetchFailed) => r matches Err(Error::Fetch(_)),
            })
        }),
{
    let ghost modsv = Seq::new(mods@.len(), |i: int| mods@[i]@);
    let ghost outsv = Seq::new(outcomes@.len(), |i: int| outcomes@[i]@);
    let ghost folded = spec_build_mods(Seq::empty(), modsv, outsv);
    proof {
        assert(modsv.skip(0int) =~= modsv);
        assert(outsv.skip(0int) =~= outsv);
        assert(entries_view(built@) =~= Seq::<EntryV>::empty());
    }
    let mut i: usize = 0;
    while i < mods.len()
        invariant
            i <= mods@.len(),
            spec_build_mods(entries_view(built@), modsv.skip(i as int), outsv.skip(i as int))
                == folded,
        decreases mods@.len() - i,
    {
        let ghost cur = entries_view(built@);
        proof {
            assert(modsv.skip(i as int)[0] == modsv[i as int]);
            assert(outsv.skip(i as int)[0] == outsv[i as int]);
            assert(modsv.skip(i as int).drop_first() =~= modsv.skip(i + 1));
            assert(outsv.skip(i as int).drop_first() =~= outsv.skip(i + 1));
        }
        let file_name = match mods[i].file_or_source() {
            Ok(f) => f,
            Err(e) => {
                return Err(e);
            },
        };
        match mods[i].source.resolve_url() {
            Ok(_) => {},
            Err(e) => {
                return Err(e);
            },
        }
        let body = match &outcomes[i] {
            FetchOutcome::Body(b) => b.clone(),
            FetchOutcome::Failed(cause) => {
                return Err(Error::Fetch(cause.clone()));
            },
        };
        put_entry(built, file_name, Node::File { content: body });
        i += 1;
    }
    proof {
        assert(modsv.skip(modsv.len() as int) =~= Seq::<ModV>::empty());
    }
    Ok(())
}

/// The installation directory that a build leaves behind: a fresh directory
/// holding one `mods` directory with the materialized files.
pub open spec fn spec_installation(files: Seq<EntryV>) -> NodeV {
    NodeV::Dir {
        entries: seq![EntryV { name: "mods"@, node: NodeV::Dir { entries: files } }],
    }
}

/// Rebuilds the installation at `slot` from scratch: whatever stood there —
/// a file, a directory, or nothing — is discarded, a fresh directory with a
/// nested mod directory is put in its place, and every mod is materialized
/// into it in manifest order, stopping at the first failure with everything
/// already written left in place.
pub fn build_installation(project: &Project, slot: &mut Option<Node>, outcomes: &Vec<FetchOutcome>) -> (r: Result<(), Error>)
    requires
        outcomes@.len() == project.mods@.len(),
    ensures
        ({
            let folded = spec_build_mods(
                Seq::empty(),
                project@.mods,
                Seq::new(outcomes@.len(), |i: int| outcomes@[i]@),
            );
            ((*final(slot)) matches Some(inst) && inst@ == spec_installation(folded.0)) && (match folded.1 {
                None => r is Ok,
                Some(BuildStop::BadSource) => r == Err::<(), Error>(Error::InvalidSource),
                Some(BuildStop::BadUrl) => r matches Err(Error::URL(_)),
                Some(BuildStop::FetchFailed) => r matches Err(Error::Fetch(_)),
            })
        }),
{
    let mut built: Vec<DirEntry> = Vec::new();
    let r = build_mods(&project.mods, outcomes, &mut built);
    let ghost builtv = entries_view(built@);
    let mut inst: Vec<DirEntry> = Vec::new();
    inst.push(DirEntry { name: String::from_str("mods"), node: Node::Dir { entries: built } });
    proof {
        assert(project@.mods =~= Seq::new(project.mods@.len(), |i: int| project.mods@[i]@));
        lemma_entries_view(inst@);
        assert(inst@[0]@ == EntryV { name: "mods"@, node: NodeV::Dir { entries: builtv } });
        assert(entries_view(inst@) =~= seq![
            (EntryV { name: "mods"@, node: NodeV::Dir { entries: builtv } }),
        ]);
    }
    let ghost instv = entries_view(inst@);
    *slot = Some(Node::Dir { entries: inst });
    proof {
        assert(instv == spec_installation(builtv)->Dir_entries);
    }
    r
}

/// Builds the project into the `installation` entry of `root`: the whole
/// previous installation is discarded and rebuilt.
pub fn build(project: &Project, root: &mut Vec<DirEntry>, outcomes: &Vec<FetchOutcome>) -> (r:
    Result<(), Error>)
    requires
        outcomes@.len() == project.mods@.len(),
    ensures
        ({
            let folded = spec_build_mods(
                Seq::empty(),
                project@.mods,
                Seq::new(outcomes@.len(), |i: int| outcomes@[i]@),
            );
            entries_view(final(root)@) == store(
                entries_view(old(root)@),
                "installation"@,
                spec_installation(folded.0),
            ) && (match folded.1 {
                None => r is Ok,
                Some(BuildStop::BadSource) => r == Err::<(), Error>(Error::InvalidSource),
                Some(BuildStop::BadUrl) => r matches Err(Error::URL(_)),
                Some(BuildStop::FetchFailed) => r matches Err(Error::Fetch(_)),
            })
        }),
{
    let mut slot: Option<Node> = None;
    let r = build_installation(project, &mut slot, outcomes);
    match slot {
        Some(inst) => put_entry(root, String::from_str("installation"), inst),
        None => {
            proof {
                assert(false);
            }
        },
    }
    r
}

} // verus!
