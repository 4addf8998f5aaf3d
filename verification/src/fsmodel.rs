use vstd::prelude::*;
use crate::text::str_eq;

verus! {

/// One named entry of a directory.
#[derive(Debug)]
pub struct DirEntry {
    pub name: String,
    pub node: Node,
}

/// A value standing for one filesystem object: a plain text file, or a
/// directory of named entries. Projects and installations are handled
/// entirely on such values; an unverified shell moves them from and to disk.
#[derive(Debug)]
pub enum Node {
    File { content: String },
    Dir { entries: Vec<DirEntry> },
}

/// The mathematical value of a [`DirEntry`].
pub struct EntryV {
    pub name: Seq<char>,
    pub node: NodeV,
}

/// The mathematical value of a [`Node`].
pub enum NodeV {
    File { content: Seq<char> },
    Dir { entries: Seq<EntryV> },
}

/// The mathematical value of an entry: its name and its node's value.
pub open spec fn entry_view(e: DirEntry) -> EntryV
    decreases e,
{
    EntryV { name: e.name@, node: node_view(e.node) }
}

/// The mathematical value of a node.
pub open spec fn node_view(n: Node) -> NodeV
    decreases n,
{
    match n {
        Node::File { content } => NodeV::File { content: content@ },
        Node::Dir { entries } => NodeV::Dir { entries: entries_view(entries@) },
    }
}

/// The mathematical value of a directory's entry list, element by element.
pub open spec fn entries_view(es: Seq<DirEntry>) -> Seq<EntryV>
    decreases es,
{
    if es.len() == 0 {
        Seq::empty()
    } else {
        seq![entry_view(es[0])] + entries_view(es.drop_first())
    }
}

impl View for DirEntry {
    type V = EntryV;

    open spec fn view(&self) -> EntryV {
        entry_view(*self)
    }
}

impl View for Node {
    type V = NodeV;

    open spec fn view(&self) -> NodeV {
        node_view(*self)
    }
}

/// An entry list's view has the same length and views each entry in place.
pub proof fn lemma_entries_view(es: Seq<DirEntry>)
    ensures
        entries_view(es).len() == es.len(),
        forall|i: int| 0 <= i < es.len() ==> entries_view(es)[i] == es[i]@,
    decreases es,
{
    if es.len() > 0 {
        lemma_entries_view(es.drop_first());
        assert forall|i: int| 0 <= i < es.len() implies entries_view(es)[i] == es[i]@ by {
            if i > 0 {
                assert(es.drop_first()[i - 1] == es[i]);
            }
        }
    }
}

/// The node stored under `name`, going by the first entry of that name.
pub open spec fn lookup(es: Seq<EntryV>, name: Seq<char>) -> Option<NodeV>
    decreases es.len(),
{
    if es.len() == 0 {
        None
    } else if es[0].name == name {
        Some(es[0].node)
    } else {
        lookup(es.drop_first(), name)
    }
}

/// `es` with `node` stored under `name`: the first entry of that name is
/// replaced, or a new entry is appended if none exists.
pub open spec fn store(es: Seq<EntryV>, name: Seq<char>, node: NodeV) -> Seq<EntryV>
    decreases es.len(),
{
    if es.len() == 0 {
        seq![EntryV { name, node }]
    } else if es[0].name == name {
        seq![EntryV { name, node }] + es.drop_first()
    } else {
        seq![es[0]] + store(es.drop_first(), name, node)
    }
}

/// `es` with the first entry named `name` removed, if any.
pub open spec fn drop_entry(es: Seq<EntryV>, name: Seq<char>) -> Seq<EntryV>
    decreases es.len(),
{
    if es.len() == 0 {
        es
    } else if es[0].name == name {
        es.drop_first()
    } else {
        seq![es[0]] + drop_entry(es.drop_first(), name)
    }
}

/// If `name` first occurs at index `i`, lookup yields that entry's node.
pub proof fn lemma_lookup_at_index(es: Seq<EntryV>, name: Seq<char>, i: int)
    requires
        0 <= i < es.len(),
        es[i].name == name,
        forall|j: int| 0 <= j < i ==> es[j].name != name,
    ensures
        lookup(es, name) == Some(es[i].node),
    decreases i,
{
    if i > 0 {
        lemma_lookup_at_index(es.drop_first(), name, i - 1);
    }
}

/// If no entry bears `name`, lookup yields nothing.
pub proof fn lemma_lookup_absent(es: Seq<EntryV>, name: Seq<char>)
    requires
        forall|j: int| 0 <= j < es.len() ==> es[j].name != name,
    ensures
        lookup(es, name) is None,
    decreases es.len(),
{
    if es.len() > 0 {
        lemma_lookup_absent(es.drop_first(), name);
    }
}

/// If `name` first occurs at index `i`, store updates exactly that entry.
pub proof fn lemma_store_at_index(es: Seq<EntryV>, name: Seq<char>, node: NodeV, i: int)
    requires
        0 <= i < es.len(),
        es[i].name == name,
        forall|j: int| 0 <= j < i ==> es[j].name != name,
    ensures
        store(es, name, node) =~= es.update(i, (EntryV { name, node })),
    decreases i,
{
    if i > 0 {
        lemma_store_at_index(es.drop_first(), name, node, i - 1);
    }
}

/// If no entry bears `name`, store appends a new entry.
pub proof fn lemma_store_absent(es: Seq<EntryV>, name: Seq<char>, node: NodeV)
    requires
        forall|j: int| 0 <= j < es.len() ==> es[j].name != name,
    ensures
        store(es, name, node) =~= es.push((EntryV { name, node })),
    decreases es.len(),
{
    if es.len() > 0 {
        lemma_store_absent(es.drop_first(), name, node);
    }
}

/// If `name` first occurs at index `i`, dropping it removes exactly that entry.
pub proof fn lemma_drop_at_index(es: Seq<EntryV>, name: Seq<char>, i: int)
    requires
        0 <= i < es.len(),
        es[i].name == name,
        forall|j: int| 0 <= j < i ==> es[j].name != name,
    ensures
        drop_entry(es, name) =~= es.remove(i),
    decreases i,
{
    if i > 0 {
        lemma_drop_at_index(es.drop_first(), name, i - 1);
    }
}

/// A failed lookup means no entry bears `name`.
pub proof fn lemma_lookup_none_forall(es: Seq<EntryV>, name: Seq<char>)
    requires
        lookup(es, name) is None,
    ensures
        forall|j: int| 0 <= j < es.len() ==> es[j].name != name,
    decreases es.len(),
{
    if es.len() > 0 {
        lemma_lookup_none_forall(es.drop_first(), name);
        assert forall|j: int| 0 <= j < es.len() implies es[j].name != name by {
            if j > 0 {
                assert(es.drop_first()[j - 1] == es[j]);
            }
        }
    }
}

/// If no entry bears `name`, dropping it changes nothing.
pub proof fn lemma_drop_absent(es: Seq<EntryV>, name: Seq<char>)
    requires
        forall|j: int| 0 <= j < es.len() ==> es[j].name != name,
    ensures
        drop_entry(es, name) =~= es,
    decreases es.len(),
{
    if es.len() > 0 {
        lemma_drop_absent(es.drop_first(), name);
    }
}

/// After a store, `name` holds `node`.
pub proof fn lemma_lookup_store_same(es: Seq<EntryV>, name: Seq<char>, node: NodeV)
    ensures
        lookup(store(es, name, node), name) == Some(node),
    decreases es.len(),
{
    if es.len() > 0 && es[0].name != name {
        lemma_lookup_store_same(es.drop_first(), name, node);
        assert((seq![es[0]] + store(es.drop_first(), name, node)).drop_first() =~= store(
            es.drop_first(),
            name,
            node,
        ));
    }
}

/// A store under one name leaves every other name's lookup unchanged.
pub proof fn lemma_lookup_store_other(
    es: Seq<EntryV>,
    name: Seq<char>,
    node: NodeV,
    other: Seq<char>,
)
    requires
        other != name,
    ensures
        lookup(store(es, name, node), other) == lookup(es, other),
    decreases es.len(),
{
    if es.len() == 0 {
        lemma_lookup_absent(es, other);
        lemma_lookup_absent(store(es, name, node), other);
    } else if es[0].name == name {
        assert((seq![EntryV { name, node }] + es.drop_first()).drop_first() =~= es.drop_first());
    } else {
        lemma_lookup_store_other(es.drop_first(), name, node, other);
        assert((seq![es[0]] + store(es.drop_first(), name, node)).drop_first() =~= store(
            es.drop_first(),
            name,
            node,
        ));
    }
}

/// The index of the first entry named `name`, if any.
pub fn find_entry(entries: &Vec<DirEntry>, name: &str) -> (r: Option<usize>)
    ensures
        match r {
            Some(i) => 0 <= i < entries@.len() && entries@[i as int]@.name == name@ && (forall|
                j: int,
            |
                0 <= j < i ==> entries@[j]@.name != name@),
            None => forall|j: int| 0 <= j < entries@.len() ==> entries@[j]@.name != name@,
        },
{
    let mut i: usize = 0;
    while i < entries.len()
        invariant
            i <= entries@.len(),
            forall|j: int| 0 <= j < i ==> entries@[j]@.name != name@,
        decreases entries@.len() - i,
    {
        if str_eq(entries[i].name.as_str(), name) {
            return Some(i);
        }
        i += 1;
    }
    None
}

/// Whether the directory holds an entry named `name`.
pub fn has_entry(entries: &Vec<DirEntry>, name: &str) -> (r: bool)
    ensures
        r == (lookup(entries_view(entries@), name@) is Some),
{
    proof {
        lemma_entries_view(entries@);
    }
    match find_entry(entries, name) {
        Some(i) => {
            proof {
                lemma_lookup_at_index(entries_view(entries@), name@, i as int);
            }
            true
        },
        None => {
            proof {
                lemma_lookup_absent(entries_view(entries@), name@);
            }
            false
        },
    }
}

/// The content of the file entry named `name`, if a file of that name exists.
pub fn read_file(entries: &Vec<DirEntry>, name: &str) -> (r: Option<String>)
    ensures
        match lookup(entries_view(entries@), name@) {
            Some(NodeV::File { content }) => r matches Some(c) && c@ == content,
            _ => r is None,
        },
{
    proof {
        lemma_entries_view(entries@);
    }
    match find_entry(entries, name) {
        Some(i) => {
            proof {
                lemma_lookup_at_index(entries_view(entries@), name@, i as int);
            }
            match &entries[i].node {
                Node::File { content } => Some(content.clone()),
                Node::Dir { .. } => None,
            }
        },
        None => {
            proof {
                lemma_lookup_absent(entries_view(entries@), name@);
            }
            None
        },
    }
}

/// Stores `node` under `name`: replaces the first entry of that name, or
/// appends one.
pub fn put_entry(entries: &mut Vec<DirEntry>, name: String, node: Node)
    ensures
        entries_view(final(entries)@) == store(entries_view(old(entries)@), name@, node@),
{
    let ghost es = entries_view(entries@);
    let ghost nv = name@;
    let ghost dv = node@;
    proof {
        lemma_entries_view(entries@);
    }
    match find_entry(entries, name.as_str()) {
        Some(i) => {
            proof {
                lemma_store_at_index(es, nv, dv, i as int);
            }
            entries[i] = DirEntry { name, node };
            proof {
                lemma_entries_view(entries@);
                assert(entries_view(entries@) =~= es.update(
                    i as int,
                    (EntryV { name: nv, node: dv }),
                ));
            }
        },
        None => {
            proof {
                lemma_store_absent(es, nv, dv);
            }
            entries.push(DirEntry { name, node });
            proof {
                lemma_entries_view(entries@);
                assert(entries_view(entries@) =~= es.push((EntryV { name: nv, node: dv })));
            }
        },
    }
}

/// The entry list of the subdirectory named `sub`, if such a directory exists.
pub open spec fn subdir_entries(es: Seq<EntryV>, sub: Seq<char>) -> Option<Seq<EntryV>> {
    match lookup(es, sub) {
        Some(NodeV::Dir { entries }) => Some(entries),
        _ => None,
    }
}

/// Stores `node` under `name` inside the subdirectory named `sub`, creating
/// that subdirectory if absent. Reports false, and leaves the directory
/// unchanged, if `sub` names a plain file.
pub fn put_in_subdir(entries: &mut Vec<DirEntry>, sub: &str, name: String, node: Node) -> (r: bool)
    ensures
        match lookup(entries_view(old(entries)@), sub@) {
            Some(NodeV::Dir { entries: sd }) => r && entries_view(final(entries)@) == store(
                entries_view(old(entries)@),
                sub@,
                (NodeV::Dir { entries: store(sd, name@, node@) }),
            ),
            Some(NodeV::File { .. }) => !r && final(entries)@ == old(entries)@,
            None => r && entries_view(final(entries)@) == store(
                entries_view(old(entries)@),
                sub@,
                (NodeV::Dir { entries: store(Seq::empty(), name@, node@) }),
            ),
        },
{
    let ghost es = entries_view(entries@);
    let ghost nv = name@;
    let ghost dv = node@;
    proof {
        lemma_entries_view(entries@);
    }
    match find_entry(entries, sub) {
        Some(i) => {
            proof {
                lemma_lookup_at_index(es, sub@, i as int);
            }
            let is_dir = match &entries[i].node {
                Node::Dir { .. } => true,
                Node::File { .. } => false,
            };
            if !is_dir {
                return false;
            }
            let e = entries.remove(i);
            let DirEntry { name: ename, node: enode } = e;
            let mut sd: Vec<DirEntry> = match enode {
                Node::Dir { entries: inner } => inner,
                Node::File { .. } => {
                    proof {
                        assert(false);
                    }
                    Vec::new()
                },
            };
            let ghost sdv = entries_view(sd@);
            put_entry(&mut sd, name, node);
            entries.insert(i, DirEntry { name: ename, node: Node::Dir { entries: sd } });
            proof {
                lemma_entries_view(entries@);
                assert(entries@ =~= old(entries)@.update(
                    i as int,
                    entries@[i as int],
                ));
                assert(es[i as int].node == NodeV::Dir { entries: sdv });
                lemma_store_at_index(
                    es,
                    sub@,
                    (NodeV::Dir { entries: store(sdv, nv, dv) }),
                    i as int,
                );
                assert(entries_view(entries@) =~= es.update(
                    i as int,
                    (EntryV { name: sub@, node: NodeV::Dir { entries: store(sdv, nv, dv) } }),
                ));
            }
            true
        },
        None => {
            proof {
                lemma_lookup_absent(es, sub@);
            }
            let mut sd: Vec<DirEntry> = Vec::new();
            put_entry(&mut sd, name, node);
            proof {
                assert(entries_view(Seq::<DirEntry>::empty()) =~= Seq::<EntryV>::empty());
            }
            let ghost sdv = entries_view(sd@);
            let subname = sub.to_owned();
            put_entry(entries, subname, Node::Dir { entries: sd });
            proof {
                assert((Node::Dir { entries: sd })@ == NodeV::Dir { entries: store(
                    Seq::empty(),
                    nv,
                    dv,
                ) });
            }
            true
        },
    }
}

/// Removes the file named `name` from the subdirectory named `sub`. Reports
/// whether such a subdirectory entry existed and was removed; when it reports
/// false the directory is left extensionally unchanged.
pub fn remove_from_subdir(entries: &mut Vec<DirEntry>, sub: &str, name: &str) -> (r: bool)
    ensures
        match lookup(entries_view(old(entries)@), sub@) {
            Some(NodeV::Dir { entries: sd }) => r == (lookup(sd, name@) is Some) && (r
                ==> entries_view(final(entries)@) == store(
                entries_view(old(entries)@),
                sub@,
                (NodeV::Dir { entries: drop_entry(sd, name@) }),
            )) && (!r ==> entries_view(final(entries)@) == entries_view(old(entries)@)),
            _ => !r && final(entries)@ == old(entries)@,
        },
{
    let ghost es = entries_view(entries@);
    proof {
        lemma_entries_view(entries@);
    }
    match find_entry(entries, sub) {
        Some(i) => {
            proof {
                lemma_lookup_at_index(es, sub@, i as int);
            }
            let is_dir = match &entries[i].node {
                Node::Dir { .. } => true,
                Node::File { .. } => false,
            };
            if !is_dir {
                return false;
            }
            let e = entries.remove(i);
            let DirEntry { name: ename, node: enode } = e;
            let mut sd: Vec<DirEntry> = match enode {
                Node::Dir { entries: inner } => inner,
                Node::File { .. } => {
                    proof {
                        assert(false);
                    }
                    Vec::new()
                },
            };
            let ghost sdv = entries_view(sd@);
            let removed = remove_entry(&mut sd, name);
            entries.insert(i, DirEntry { name: ename, node: Node::Dir { entries: sd } });
            proof {
                lemma_entries_view(entries@);
                assert(entries@ =~= old(entries)@.update(
                    i as int,
                    entries@[i as int],
                ));
                assert(es[i as int].node == NodeV::Dir { entries: sdv });
                lemma_store_at_index(
                    es,
                    sub@,
                    (NodeV::Dir { entries: drop_entry(sdv, name@) }),
                    i as int,
                );
                assert(entries_view(entries@) =~= es.update(
                    i as int,
                    (EntryV { name: sub@, node: NodeV::Dir { entries: drop_entry(sdv, name@) } }),
                ));
                if !removed {
                    lemma_lookup_none_forall(sdv, name@);
                    lemma_drop_absent(sdv, name@);
                    assert(es.update(
                        i as int,
                        (EntryV { name: sub@, node: NodeV::Dir { entries: drop_entry(sdv, name@) } }),
                    ) =~= es);
                }
            }
            removed
        },
        None => {
            proof {
                lemma_lookup_absent(es, sub@);
            }
            false
        },
    }
}

/// Removes the first entry named `name`; reports whether one existed.
pub fn remove_entry(entries: &mut Vec<DirEntry>, name: &str) -> (r: bool)
    ensures
        entries_view(final(entries)@) == drop_entry(entries_view(old(entries)@), name@),
        r == (lookup(entries_view(old(entries)@), name@) is Some),
{
    let ghost es = entries_view(entries@);
    proof {
        lemma_entries_view(entries@);
    }
    match find_entry(entries, name) {
        Some(i) => {
            proof {
                lemma_lookup_at_index(es, name@, i as int);
                lemma_drop_at_index(es, name@, i as int);
            }
            entries.remove(i);
            proof {
                lemma_entries_view(entries@);
                assert(entries_view(entries@) =~= es.remove(i as int));
            }
            true
        },
        None => {
            proof {
                lemma_lookup_absent(es, name@);
                lemma_drop_absent(es, name@);
                assert(entries_view(entries@) =~= es);
            }
            false
        },
    }
}

} // verus!
