//! Loads a program from a set of source files: parses each, follows the
//! `include` attribute of a `program` root, and merges the function tables.
//!
//! Reading files is left to the caller. The loader works on a table of what
//! reading each path gave, and asks for the next path it needs when the
//! table does not hold it yet.
//!
//! An include is read relative to the including file's directory where
//! something exists there, else as written. Later definitions replace
//! earlier ones of the same name: each include in order, then the file's
//! own functions. A file that is reached again through its own includes
//! (same canonical path) fails with `CircularInclude`; a file included
//! twice along separate paths is not a cycle.
use vstd::prelude::*;
use crate::ast::{Function, FunctionM};
use crate::builder::{
    add_functions, add_functions_keeps_names_unique, add_parsed_functions, description_of,
    insert_function, insert_into, insert_keeps_names_unique, table_model, unique_names,
};
use crate::error::{ErrorKind, Fault};
use crate::text::{chars_of, same_text, split_at_char, split_on, string_of, strip, trim, views_of};
use crate::xml::{attribute_of, parse_xml, xml_document_of, XElem};

verus! {

/// What reading one path gave.
#[derive(Debug)]
pub enum SourceState {
    /// Nothing exists at the path; the system's message.
    Absent(String),
    /// Something exists at the path but could not be read; the system's
    /// message.
    Unreadable(String),
    /// The file's canonical path and its text.
    Loaded { canonical: String, text: String },
}

/// One path as it was asked for, and what reading it gave.
#[derive(Debug)]
pub struct SourceEntry {
    pub path: String,
    pub state: SourceState,
}

/// The files read so far.
#[derive(Debug)]
pub struct SourceTable {
    pub entries: Vec<SourceEntry>,
}

/// Model of what reading a path gave.
pub enum SourceM {
    Absent(Seq<char>),
    Unreadable(Seq<char>),
    Loaded { canonical: Seq<char>, text: Seq<char> },
}

pub open spec fn state_model(s: SourceState) -> SourceM {
    match s {
        SourceState::Absent(m) => SourceM::Absent(m@),
        SourceState::Unreadable(m) => SourceM::Unreadable(m@),
        SourceState::Loaded { canonical, text } => SourceM::Loaded {
            canonical: canonical@,
            text: text@,
        },
    }
}

impl View for SourceTable {
    type V = Seq<(Seq<char>, SourceM)>;

    open spec fn view(&self) -> Seq<(Seq<char>, SourceM)> {
        self.entries@.map_values(|e: SourceEntry| (e.path@, state_model(e.state)))
    }
}

/// The first entry for `path`.
pub open spec fn entry_index(t: Seq<(Seq<char>, SourceM)>, path: Seq<char>) -> Option<int>
    decreases t.len(),
{
    if t.len() == 0 {
        None
    } else {
        match entry_index(t.drop_last(), path) {
            Some(i) => Some(i),
            None => if t.last().0 == path {
                Some(t.len() - 1)
            } else {
                None
            },
        }
    }
}

/// The index of the last `/` in a path.
pub open spec fn last_slash(p: Seq<char>) -> Option<int>
    decreases p.len(),
{
    if p.len() == 0 {
        None
    } else if p.last() == '/' {
        Some(p.len() - 1)
    } else {
        last_slash(p.drop_last())
    }
}

/// The directory part of a path: what precedes its last `/` (the root
/// where that is empty), or nothing.
pub open spec fn dir_of(p: Seq<char>) -> Seq<char> {
    match last_slash(p) {
        None => seq![],
        Some(i) => if i == 0 {
            seq!['/']
        } else {
            p.take(i)
        },
    }
}

/// `inc` read relative to the directory `dir`; an absolute `inc` stands
/// as it is.
pub open spec fn join(dir: Seq<char>, inc: Seq<char>) -> Seq<char> {
    if (inc.len() > 0 && inc[0] == '/') || dir.len() == 0 {
        inc
    } else if dir.last() == '/' {
        dir + inc
    } else {
        dir + seq!['/'] + inc
    }
}

/// The references of an `include` attribute: its comma-separated pieces,
/// trimmed.
pub open spec fn include_refs(root: XElem) -> Seq<Seq<char>> {
    if root.name == "program"@ {
        match attribute_of(root.attributes, "include"@) {
            Some(v) => trim_all(split_on(v, ',')),
            None => seq![],
        }
    } else {
        seq![]
    }
}

pub open spec fn trim_all(s: Seq<Seq<char>>) -> Seq<Seq<char>>
    decreases s.len(),
{
    if s.len() == 0 {
        seq![]
    } else {
        trim_all(s.drop_last()).push(trim(s.last()))
    }
}

/// Adds each function of `fs` to a table, in order.
pub open spec fn merge(acc: Seq<FunctionM>, fs: Seq<FunctionM>) -> Seq<FunctionM>
    decreases fs.len(),
{
    if fs.len() == 0 {
        acc
    } else {
        merge(insert_function(acc, fs[0]), fs.drop_first())
    }
}

/// The outcome of loading a file: its description and merged functions, a
/// path whose reading is still needed, or a fault in a file.
pub enum LoadM {
    Ready(Option<Seq<char>>, Seq<FunctionM>),
    Need(Seq<char>),
    Fail(Fault, Seq<char>),
}

/// Loads the file at `path`, included through the files whose canonical
/// paths are `chain`.
pub open spec fn load_file(t: Seq<(Seq<char>, SourceM)>, path: Seq<char>, chain: Seq<Seq<char>>) -> LoadM
    decreases t.len() - chain.len(), 1nat, 0nat,
{
    match entry_index(t, path) {
        None => LoadM::Need(path),
        Some(i) => match t[i].1 {
            SourceM::Absent(msg) => LoadM::Fail(Fault::IoFailure(msg), path),
            SourceM::Unreadable(msg) => LoadM::Fail(Fault::IoFailure(msg), path),
            SourceM::Loaded { canonical, text } => if chain.contains(canonical) || chain.len()
                >= t.len() {
                LoadM::Fail(Fault::CircularInclude(path), path)
            } else {
                match xml_document_of(text) {
                    Err(msg) => LoadM::Fail(Fault::MalformedDocument(msg), path),
                    Ok(root) => {
                        let incs = include_refs(root);
                        match load_includes(t, path, incs, chain.push(canonical), incs.len()) {
                            LoadM::Ready(_, fs) => match add_functions(fs, root.children) {
                                Ok(all) => LoadM::Ready(description_of(root.children), all),
                                Err(m) => LoadM::Fail(Fault::StructuralError(m), path),
                            },
                            other => other,
                        }
                    },
                }
            },
        },
    }
}

/// Loads the first `k` includes of the file at `path`, merging their
/// functions in order.
pub open spec fn load_includes(
    t: Seq<(Seq<char>, SourceM)>,
    path: Seq<char>,
    incs: Seq<Seq<char>>,
    chain: Seq<Seq<char>>,
    k: nat,
) -> LoadM
    decreases t.len() - chain.len() + 1, 0nat, k,
{
    if k == 0 || k > incs.len() {
        LoadM::Ready(None, seq![])
    } else {
        match load_includes(t, path, incs, chain, (k - 1) as nat) {
            LoadM::Ready(_, acc) => {
                let inc = incs[k - 1];
                let near = join(dir_of(path), inc);
                match entry_index(t, near) {
                    None => LoadM::Need(near),
                    Some(j) => {
                        let target = match t[j].1 {
                            SourceM::Absent(_) => inc,
                            _ => near,
                        };
                        if chain.len() > t.len() {
                            LoadM::Fail(Fault::CircularInclude(target), target)
                        } else {
                            match load_file(t, target, chain) {
                                LoadM::Ready(_, fs) => LoadM::Ready(None, merge(acc, fs)),
                                other => other,
                            }
                        }
                    },
                }
            },
            other => other,
        }
    }
}

pub open spec fn texts(v: Seq<String>) -> Seq<Seq<char>> {
    v.map_values(|s: String| s@)
}

/// The outcome of loading, as the loader computes it.
pub enum Loading {
    Ready(Option<String>, Vec<Function>),
    Need(String),
    Fail(ErrorKind, String),
}

pub open spec fn loading_agrees(o: Loading, m: LoadM) -> bool {
    match (o, m) {
        (Loading::Ready(d, fs), LoadM::Ready(dm, fsm)) => crate::ast::opt_text(d) == dm
            && table_model(fs@) == fsm,
        (Loading::Need(p), LoadM::Need(pm)) => p@ == pm,
        (Loading::Fail(k, f), LoadM::Fail(km, fm)) => k@ == km && f@ == fm,
        _ => false,
    }
}

proof fn lemma_entry_index(t: Seq<(Seq<char>, SourceM)>, path: Seq<char>)
    ensures
        match entry_index(t, path) {
            Some(i) => 0 <= i < t.len() && t[i].0 == path && forall|k: int|
                0 <= k < i ==> t[k].0 != path,
            None => forall|k: int| 0 <= k < t.len() ==> t[k].0 != path,
        },
    decreases t.len(),
{
    if t.len() > 0 {
        let d = t.drop_last();
        lemma_entry_index(d, path);
        match entry_index(d, path) {
            Some(i) => {
                assert forall|k: int| 0 <= k < i implies t[k].0 != path by {
                    assert(d[k] == t[k]);
                }
            },
            None => {
                assert forall|k: int| 0 <= k < t.len() - 1 implies t[k].0 != path by {
                    assert(d[k] == t[k]);
                }
            },
        }
    }
}

/// The entry for `path`: the first one that was recorded for it.
pub fn find_entry(table: &SourceTable, path: &str) -> (r: Option<usize>)
    ensures
        entry_index(table@, path@) == match r {
            Some(i) => Some(i as int),
            None => None::<int>,
        },
        r is Some ==> r->0 < table.entries.len(),
{
    let ghost m = table@;
    proof {
        lemma_entry_index(m, path@);
    }
    let mut i: usize = 0;
    while i < table.entries.len()
        invariant
            i <= table.entries.len(),
            m == table@,
            m.len() == table.entries.len(),
            forall|k: int| 0 <= k < i ==> #[trigger] m[k].0 != path@,
        decreases table.entries.len() - i,
    {
        assert(m[i as int].0 == table.entries@[i as int].path@);
        if same_text(table.entries[i].path.as_str(), path) {
            proof {
                lemma_entry_index(m, path@);
            }
            return Some(i);
        }
        i = i + 1;
    }
    None
}

fn last_slash_index(p: &Vec<char>) -> (r: Option<usize>)
    ensures
        last_slash(p@) == match r {
            Some(i) => Some(i as int),
            None => None::<int>,
        },
        r is Some ==> r->0 < p.len(),
{
    let mut i = p.len();
    assert(p@.take(i as int) =~= p@);
    while i > 0
        invariant
            i <= p.len(),
            last_slash(p@) == last_slash(p@.take(i as int)),
        decreases i,
    {
        assert(p@.take(i as int).last() == p@[i - 1]);
        if p[i - 1] == '/' {
            return Some(i - 1);
        }
        assert(p@.take(i as int).drop_last() =~= p@.take(i - 1));
        i = i - 1;
    }
    None
}

/// The path of an include reference, read relative to the directory of
/// the including file.
pub fn resolve_near(path: &str, inc: &Vec<char>) -> (r: Vec<char>)
    ensures
        r@ == join(dir_of(path@), inc@),
{
    let p = chars_of(path);
    let dir: Vec<char> = match last_slash_index(&p) {
        None => Vec::new(),
        Some(i) => if i == 0 {
            let mut d: Vec<char> = Vec::new();
            d.push('/');
            d
        } else {
            crate::text::slice_chars(&p, 0, i)
        },
    };
    assert(dir@ =~= dir_of(path@));
    if (inc.len() > 0 && inc[0] == '/') || dir.len() == 0 {
        let mut r: Vec<char> = Vec::new();
        let mut k: usize = 0;
        while k < inc.len()
            invariant
                k <= inc.len(),
                r@ == inc@.take(k as int),
            decreases inc.len() - k,
        {
            r.push(inc[k]);
            k = k + 1;
        }
        assert(inc@.take(k as int) =~= inc@);
        r
    } else {
        let mut r: Vec<char> = Vec::new();
        let mut k: usize = 0;
        while k < dir.len()
            invariant
                k <= dir.len(),
                r@ == dir@.take(k as int),
            decreases dir.len() - k,
        {
            r.push(dir[k]);
            k = k + 1;
        }
        assert(dir@.take(k as int) =~= dir@);
        if dir[dir.len() - 1] != '/' {
            r.push('/');
        }
        let ghost head = r@;
        let mut k: usize = 0;
        while k < inc.len()
            invariant
                k <= inc.len(),
                r@ == head + inc@.take(k as int),
            decreases inc.len() - k,
        {
            r.push(inc[k]);
            k = k + 1;
            assert(r@ =~= head + inc@.take(k as int));
        }
        assert(inc@.take(k as int) =~= inc@);
        r
    }
}

/// The trimmed references of a root's `include` attribute.
fn includes_of(root: &crate::xml::XmlElement) -> (r: Vec<Vec<char>>)
    ensures
        views_of(r@) == include_refs(root@),
{
    let mut out: Vec<Vec<char>> = Vec::new();
    if !same_text(root.name.as_str(), "program") {
        assert(views_of(out@) =~= seq![]);
        return out;
    }
    match root.attribute("include") {
        None => {
            assert(views_of(out@) =~= seq![]);
            out
        },
        Some(v) => {
            let cs = chars_of(v.as_str());
            let parts = split_at_char(&cs, ',');
            let ghost pv = views_of(parts@);
            let mut i: usize = 0;
            assert(views_of(out@) =~= trim_all(pv.take(0)));
            while i < parts.len()
                invariant
                    i <= parts.len(),
                    pv == views_of(parts@),
                    views_of(out@) == trim_all(pv.take(i as int)),
                decreases parts.len() - i,
            {
                assert(pv[i as int] == parts@[i as int]@);
                let t = strip(&parts[i], false);
                let ghost before = views_of(out@);
                out.push(t);
                assert(views_of(out@) =~= before.push(t@));
                assert(pv.take(i + 1).drop_last() =~= pv.take(i as int));
                i = i + 1;
            }
            assert(pv.take(i as int) =~= pv);
            out
        },
    }
}

/// Adds each function of `fs` to `acc`, in order.
pub fn merge_into(acc: &mut Vec<Function>, fs: Vec<Function>)
    ensures
        table_model(final(acc)@) == merge(table_model(old(acc)@), table_model(fs@)),
{
    let mut rest = fs;
    while rest.len() > 0
        invariant
            merge(table_model(old(acc)@), table_model(fs@)) == merge(
                table_model(acc@),
                table_model(rest@),
            ),
        decreases rest.len(),
    {
        let ghost before = table_model(rest@);
        let f = rest.remove(0);
        assert(table_model(rest@) =~= before.drop_first());
        insert_into(acc, f);
    }
}

fn chain_holds(chain: &Vec<String>, c: &str) -> (r: bool)
    ensures
        r == texts(chain@).contains(c@),
{
    let mut i: usize = 0;
    while i < chain.len()
        invariant
            i <= chain.len(),
            forall|k: int| 0 <= k < i ==> #[trigger] texts(chain@)[k] != c@,
        decreases chain.len() - i,
    {
        if same_text(chain[i].as_str(), c) {
            assert(texts(chain@)[i as int] == c@);
            return true;
        }
        i = i + 1;
    }
    false
}

proof fn lemma_includes_stop(
    t: Seq<(Seq<char>, SourceM)>,
    path: Seq<char>,
    incs: Seq<Seq<char>>,
    chain: Seq<Seq<char>>,
    k: nat,
    n: nat,
)
    requires
        1 <= k <= n <= incs.len(),
        !(load_includes(t, path, incs, chain, k) is Ready),
    ensures
        load_includes(t, path, incs, chain, n) == load_includes(t, path, incs, chain, k),
    decreases n - k,
{
    if k < n {
        lemma_includes_stop(t, path, incs, chain, k, (n - 1) as nat);
    }
}

/// Loads the file at `path`, included through the files whose canonical
/// paths are `chain`; `chain` is as it was afterwards.
pub(crate) fn load_document(table: &SourceTable, path: &str, chain: &mut Vec<String>) -> (r: Loading)
    ensures
        loading_agrees(r, load_file(table@, path@, texts(old(chain)@))),
        final(chain)@ == old(chain)@,
    decreases table@.len() - texts(old(chain)@).len(), 1nat, 0nat,
{
    let idx = match find_entry(table, path) {
        Some(i) => i,
        None => {
            return Loading::Need(path.to_owned());
        },
    };
    assert(table@[idx as int].1 == state_model(table.entries@[idx as int].state));
    match &table.entries[idx].state {
        SourceState::Absent(msg) => Loading::Fail(ErrorKind::IoFailure(msg.clone()), path.to_owned()),
        SourceState::Unreadable(msg) => Loading::Fail(
            ErrorKind::IoFailure(msg.clone()),
            path.to_owned(),
        ),
        SourceState::Loaded { canonical, text } => {
            if chain_holds(chain, canonical.as_str()) || chain.len() >= table.entries.len() {
                return Loading::Fail(
                    ErrorKind::CircularInclude(path.to_owned()),
                    path.to_owned(),
                );
            }
            let root = match parse_xml(text.as_str()) {
                Ok(root) => root,
                Err(msg) => {
                    return Loading::Fail(ErrorKind::MalformedDocument(msg), path.to_owned());
                },
            };
            let incs = includes_of(&root);
            let ghost before = chain@;
            chain.push(canonical.clone());
            assert(texts(chain@) =~= texts(before).push(canonical@));
            let included = load_included(table, path, &incs, chain);
            chain.pop();
            assert(chain@ =~= before);
            let mut fs = match included {
                Loading::Ready(_, fs) => fs,
                other => {
                    return other;
                },
            };
            match add_parsed_functions(&mut fs, &root) {
                Ok(()) => {},
                Err(m) => {
                    return Loading::Fail(ErrorKind::StructuralError(m), path.to_owned());
                },
            }
            let description = match root.child("description") {
                Some(d) => {
                    let t = strip(&d.text(), false);
                    Some(string_of(&t))
                },
                None => None,
            };
            Loading::Ready(description, fs)
        },
    }
}

/// Loads the includes of the file at `path` in order and merges their
/// functions.
fn load_included(table: &SourceTable, path: &str, incs: &Vec<Vec<char>>, chain: &mut Vec<String>) -> (r:
    Loading)
    requires
        texts(old(chain)@).len() <= table@.len(),
    ensures
        loading_agrees(
            r,
            load_includes(table@, path@, views_of(incs@), texts(old(chain)@), incs.len() as nat),
        ),
        final(chain)@ == old(chain)@,
    decreases table@.len() - texts(old(chain)@).len() + 1, 0nat, incs.len(),
{
    let ghost iv = views_of(incs@);
    let ghost cv = texts(chain@);
    let mut acc: Vec<Function> = Vec::new();
    let mut k: usize = 0;
    assert(table_model(acc@) =~= seq![]);
    while k < incs.len()
        invariant
            k <= incs.len(),
            iv == views_of(incs@),
            cv == texts(old(chain)@),
            chain@ == old(chain)@,
            cv.len() <= table@.len(),
            load_includes(table@, path@, iv, cv, k as nat) == LoadM::Ready(None, table_model(acc@)),
        decreases incs.len() - k,
    {
        assert(iv[k as int] == incs@[k as int]@);
        let near = resolve_near(path, &incs[k]);
        let near_s = string_of(&near);
        let j = match find_entry(table, near_s.as_str()) {
            Some(j) => j,
            None => {
                proof {
                    lemma_includes_stop(table@, path@, iv, cv, (k + 1) as nat, incs.len() as nat);
                }
                return Loading::Need(near_s);
            },
        };
        assert(table@[j as int].1 == state_model(table.entries@[j as int].state));
        let target = match &table.entries[j].state {
            SourceState::Absent(_) => string_of(&incs[k]),
            _ => near_s,
        };
        let loaded = load_document(table, target.as_str(), chain);
        match loaded {
            Loading::Ready(_, fs) => {
                merge_into(&mut acc, fs);
            },
            other => {
                proof {
                    lemma_includes_stop(table@, path@, iv, cv, (k + 1) as nat, incs.len() as nat);
                }
                return other;
            },
        }
        k = k + 1;
    }
    Loading::Ready(None, acc)
}

/// Merging tables keeps the names unique.
pub proof fn merge_keeps_names_unique(acc: Seq<FunctionM>, fs: Seq<FunctionM>)
    requires
        unique_names(acc),
    ensures
        unique_names(merge(acc, fs)),
    decreases fs.len(),
{
    if fs.len() > 0 {
        insert_keeps_names_unique(acc, fs[0]);
        merge_keeps_names_unique(insert_function(acc, fs[0]), fs.drop_first());
    }
}

/// A loaded program's function table holds at most one function of each
/// name.
pub proof fn loaded_names_are_unique(
    t: Seq<(Seq<char>, SourceM)>,
    path: Seq<char>,
    chain: Seq<Seq<char>>,
)
    ensures
        load_file(t, path, chain) is Ready ==> unique_names(load_file(t, path, chain)->Ready_1),
    decreases t.len() - chain.len(), 1nat, 0nat,
{
    match entry_index(t, path) {
        None => {},
        Some(i) => match t[i].1 {
            SourceM::Loaded { canonical, text } => if !(chain.contains(canonical) || chain.len()
                >= t.len()) {
                match xml_document_of(text) {
                    Err(_) => {},
                    Ok(root) => {
                        let incs = include_refs(root);
                        included_names_are_unique(t, path, incs, chain.push(canonical), incs.len());
                        match load_includes(t, path, incs, chain.push(canonical), incs.len()) {
                            LoadM::Ready(_, fs) => add_functions_keeps_names_unique(
                                fs,
                                root.children,
                            ),
                            _ => {},
                        }
                    },
                }
            },
            _ => {},
        },
    }
}

proof fn included_names_are_unique(
    t: Seq<(Seq<char>, SourceM)>,
    path: Seq<char>,
    incs: Seq<Seq<char>>,
    chain: Seq<Seq<char>>,
    k: nat,
)
    ensures
        load_includes(t, path, incs, chain, k) is Ready ==> unique_names(
            load_includes(t, path, incs, chain, k)->Ready_1,
        ),
    decreases t.len() - chain.len() + 1, 0nat, k,
{
    if !(k == 0 || k > incs.len()) {
        included_names_are_unique(t, path, incs, chain, (k - 1) as nat);
        match load_includes(t, path, incs, chain, (k - 1) as nat) {
            LoadM::Ready(_, acc) => {
                let inc = incs[k - 1];
                let near = join(dir_of(path), inc);
                match entry_index(t, near) {
                    None => {},
                    Some(j) => {
                        let target = match t[j].1 {
                            SourceM::Absent(_) => inc,
                            _ => near,
                        };
                        if !(chain.len() > t.len()) {
                            loaded_names_are_unique(t, target, chain);
                            match load_file(t, target, chain) {
                                LoadM::Ready(_, fs) => merge_keeps_names_unique(acc, fs),
                                _ => {},
                            }
                        }
                    },
                }
            },
            _ => {},
        }
    }
}

} // verus!
