//! The list of files to work on: the ones named on the command line, or all regular files found
//! below a directory.
use vstd::prelude::*;
use vstd::utf8::encode_utf8;

use crate::path::{
    comes_first, joined_path, law_path_order_antisymmetric, law_path_order_total,
    law_path_order_transitive, lemma_part_len, path_le, path_views, FilePath,
};
use crate::text::{text, utf8_lossy_text};

verus! {

/// The paths stand in order.
pub open spec fn in_order(v: Seq<Seq<u8>>) -> bool {
    forall|i: int, j: int| 0 <= i < j < v.len() ==> path_le(#[trigger] v[i], #[trigger] v[j])
}

/// `r` holds the paths of `v`, each as often, in order.
pub open spec fn sorted_from(v: Seq<Seq<u8>>, r: Seq<Seq<u8>>) -> bool {
    in_order(r) && r.to_multiset() == v.to_multiset()
}

proof fn lemma_views_push(v: Seq<FilePath>, p: FilePath)
    ensures
        path_views(v.push(p)) == path_views(v).push(p@),
{
    assert(path_views(v.push(p)) =~= path_views(v).push(p@));
}

proof fn lemma_multiset_concat_last(a: Seq<Seq<u8>>)
    requires
        a.len() > 0,
    ensures
        a.to_multiset() == a.drop_last().to_multiset().insert(a.last()),
{
    a.drop_last().to_multiset_ensures();
    assert(a == a.drop_last().push(a.last()));
}

/// The paths in reverse.
fn reversed(mut v: Vec<FilePath>) -> (r: Vec<FilePath>)
    ensures
        path_views(r@) == path_views(v@).reverse(),
{
    let ghost all = path_views(v@);
    let mut r: Vec<FilePath> = Vec::new();
    while v.len() > 0
        invariant
            all.reverse() == path_views(r@) + path_views(v@).reverse(),
        decreases v@.len(),
    {
        let ghost before = path_views(r@);
        let ghost left = path_views(v@);
        if let Some(p) = v.pop() {
            proof {
                lemma_views_push(r@, p);
                assert(path_views(v@) == left.drop_last());
                assert(left.last() == p@);
                assert(left.reverse() == seq![p@] + left.drop_last().reverse());
            }
            r.push(p);
            assert(before.push(p@) + path_views(v@).reverse() == before + left.reverse());
        }
    }
    assert(path_views(r@) + path_views(v@).reverse() == path_views(r@));
    r
}

/// Every path of `a` comes no later than every path of `b`.
spec fn all_before(a: Seq<Seq<u8>>, b: Seq<Seq<u8>>) -> bool {
    forall|i: int, j: int|
        0 <= i < a.len() && 0 <= j < b.len() ==> path_le(#[trigger] a[i], #[trigger] b[j])
}

/// The paths stand in reverse order.
spec fn in_reverse_order(v: Seq<Seq<u8>>) -> bool {
    forall|i: int, j: int| 0 <= i < j < v.len() ==> path_le(#[trigger] v[j], #[trigger] v[i])
}

/// Taking the last path of `a`, which comes no earlier than the last of `b`, to the end of a
/// reversed list that all of `a` and `b` come before, keeps that so.
proof fn lemma_take_last(a: Seq<Seq<u8>>, b: Seq<Seq<u8>>, out: Seq<Seq<u8>>)
    requires
        a.len() > 0,
        in_order(a),
        in_order(b),
        in_reverse_order(out),
        all_before(a, out),
        all_before(b, out),
        b.len() > 0 ==> path_le(b.last(), a.last()),
    ensures
        in_order(a.drop_last()),
        in_reverse_order(out.push(a.last())),
        all_before(a.drop_last(), out.push(a.last())),
        all_before(b, out.push(a.last())),
{
    let more = out.push(a.last());
    assert forall|i: int, j: int| 0 <= i < j < more.len() implies path_le(
        #[trigger] more[j],
        #[trigger] more[i],
    ) by {
        if j == out.len() {
            assert(path_le(a[a.len() - 1], out[i]));
        } else {
            assert(path_le(out[j], out[i]));
        }
    }
    assert forall|i: int, j: int|
        0 <= i < a.drop_last().len() && 0 <= j < more.len() implies path_le(
        #[trigger] a.drop_last()[i],
        #[trigger] more[j],
    ) by {
        if j == out.len() {
            assert(path_le(a[i], a[a.len() - 1]));
        } else {
            assert(path_le(a[i], out[j]));
        }
    }
    assert forall|i: int, j: int| 0 <= i < b.len() && 0 <= j < more.len() implies path_le(
        #[trigger] b[i],
        #[trigger] more[j],
    ) by {
        if j == out.len() {
            if i < b.len() - 1 {
                assert(path_le(b[i], b[b.len() - 1]));
                law_path_order_transitive(b[i], b.last(), a.last());
            }
        } else {
            assert(path_le(b[i], out[j]));
        }
    }
}

/// Merges two ordered lists.
fn merge(mut a: Vec<FilePath>, mut b: Vec<FilePath>) -> (r: Vec<FilePath>)
    requires
        in_order(path_views(a@)),
        in_order(path_views(b@)),
    ensures
        in_order(path_views(r@)),
        path_views(r@).to_multiset() == path_views(a@).to_multiset().add(
            path_views(b@).to_multiset(),
        ),
{
    let ghost total = path_views(a@).to_multiset().add(path_views(b@).to_multiset());
    let mut out: Vec<FilePath> = Vec::new();
    proof {
        path_views(out@).to_multiset_ensures();
        assert(path_views(out@).to_multiset() =~= vstd::multiset::Multiset::empty());
    }
    while a.len() > 0 || b.len() > 0
        invariant
            in_order(path_views(a@)),
            in_order(path_views(b@)),
            in_reverse_order(path_views(out@)),
            all_before(path_views(a@), path_views(out@)),
            all_before(path_views(b@), path_views(out@)),
            total == path_views(a@).to_multiset().add(path_views(b@).to_multiset()).add(
                path_views(out@).to_multiset(),
            ),
        decreases a@.len() + b@.len(),
    {
        let ghost av = path_views(a@);
        let ghost bv = path_views(b@);
        let ghost ov = path_views(out@);
        let from_a: bool = if a.len() == 0 {
            false
        } else if b.len() == 0 {
            true
        } else {
            comes_first(&b[b.len() - 1], &a[a.len() - 1])
        };
        if from_a {
            proof {
                lemma_take_last(av, bv, ov);
                lemma_multiset_concat_last(av);
                ov.to_multiset_ensures();
            }
            if let Some(p) = a.pop() {
                proof {
                    lemma_views_push(out@, p);
                    assert(path_views(a@) == av.drop_last());
                    assert(p@ == av.last());
                }
                out.push(p);
            }
        } else {
            proof {
                if av.len() > 0 {
                    law_path_order_total(av.last(), bv.last());
                }
                lemma_take_last(bv, av, ov);
                lemma_multiset_concat_last(bv);
                ov.to_multiset_ensures();
            }
            if let Some(p) = b.pop() {
                proof {
                    lemma_views_push(out@, p);
                    assert(path_views(b@) == bv.drop_last());
                    assert(p@ == bv.last());
                }
                out.push(p);
            }
        }
        proof {
            assert(total =~= path_views(a@).to_multiset().add(path_views(b@).to_multiset()).add(
                path_views(out@).to_multiset(),
            ));
        }
    }
    let ghost ov = path_views(out@);
    proof {
        path_views(a@).to_multiset_ensures();
        path_views(b@).to_multiset_ensures();
        assert(path_views(a@).to_multiset() =~= vstd::multiset::Multiset::empty());
        assert(path_views(b@).to_multiset() =~= vstd::multiset::Multiset::empty());
        assert(total =~= ov.to_multiset());
        ov.lemma_reverse_to_multiset();
    }
    let r = reversed(out);
    proof {
        let rv = path_views(r@);
        assert forall|i: int, j: int| 0 <= i < j < rv.len() implies path_le(
            #[trigger] rv[i],
            #[trigger] rv[j],
        ) by {
            assert(rv[i] == ov[ov.len() - 1 - i]);
            assert(rv[j] == ov[ov.len() - 1 - j]);
        }
    }
    r
}

/// The paths in order.
fn sort_paths(mut v: Vec<FilePath>) -> (r: Vec<FilePath>)
    ensures
        sorted_from(path_views(v@), path_views(r@)),
    decreases v@.len(),
{
    if v.len() <= 1 {
        return v;
    }
    let ghost all = path_views(v@);
    let half: usize = v.len() / 2;
    let back = v.split_off(half);
    proof {
        assert(all == path_views(v@) + path_views(back@));
        vstd::seq_lib::lemma_multiset_commutative(path_views(v@), path_views(back@));
    }
    let left = sort_paths(v);
    let right = sort_paths(back);
    merge(left, right)
}

/// Directory names skipped during recursive discovery (in addition to hidden names).
pub open spec fn skipped_dir(name: Seq<u8>) -> bool {
    ||| name == encode_utf8("target"@)
    ||| name == encode_utf8("node_modules"@)
    ||| name == encode_utf8("__pycache__"@)
    ||| name == encode_utf8("dist"@)
    ||| name == encode_utf8("build"@)
    ||| name == encode_utf8(".git"@)
}

/// A hidden name: it starts with a dot.
pub open spec fn hidden(name: Seq<u8>) -> bool {
    name.len() > 0 && name[0] == 0x2e
}

/// Whether a name is spelt like a text.
fn spells(name: &Vec<u8>, s: &str) -> (b: bool)
    ensures
        b == (name@ == encode_utf8(s@)),
{
    let other = s.as_bytes_vec();
    if name.len() != other.len() {
        return false;
    }
    let mut i: usize = 0;
    while i < name.len()
        invariant
            i <= name@.len() == other@.len(),
            other@ == encode_utf8(s@),
            name@.take(i as int) == other@.take(i as int),
        decreases name@.len() - i,
    {
        if name[i] != other[i] {
            assert(name@[i as int] != other@[i as int]);
            return false;
        }
        assert(name@.take(i + 1) == name@.take(i as int).push(name@[i as int]));
        assert(other@.take(i + 1) == other@.take(i as int).push(other@[i as int]));
        i = i + 1;
    }
    assert(name@.take(i as int) == name@);
    assert(other@.take(i as int) == other@);
    true
}

/// Whether discovery does not go below a directory of that name.
pub fn skips_dir(name: &Vec<u8>) -> (b: bool)
    ensures
        b == skipped_dir(name@),
{
    spells(name, "target") || spells(name, "node_modules") || spells(name, "__pycache__")
        || spells(name, "dist") || spells(name, "build") || spells(name, ".git")
}

/// Whether a name is hidden.
pub fn is_hidden(name: &Vec<u8>) -> (b: bool)
    ensures
        b == hidden(name@),
{
    name.len() > 0 && name[0] == 0x2e
}

/// What a directory entry is. A symbolic link is neither a directory nor a file.
#[derive(Debug, Clone, Copy, PartialEq, Eq, Structural)]
pub enum EntryKind {
    Dir,
    File,
    Other,
}

/// What a scan asks for next.
#[derive(Debug)]
pub enum ScanAction {
    /// Open a directory and make it the innermost one.
    OpenDir(FilePath),
    /// Read the next entry of the innermost directory.
    NextEntry,
    /// Find out what the entry last read is, without following links.
    Check(FilePath),
    /// Nothing more: the scan has ended.
    Finish,
}

/// What came of it.
#[derive(Debug)]
pub enum ScanInput {
    Opened,
    OpenFailed,
    /// An entry, by its name in the directory.
    Entry(Vec<u8>),
    EntryFailed,
    NoMoreEntries,
    Is(EntryKind),
    CheckFailed,
}

/// Where a scan stands.
#[derive(Debug)]
pub enum ScanPhase {
    Opening(FilePath),
    Listing,
    Checking { path: FilePath, name: Vec<u8> },
    Done,
    Failed(String),
}

/// A recursive search for regular files below a directory.
#[derive(Debug)]
pub struct Scan {
    dirs: Vec<FilePath>,
    found: Vec<FilePath>,
    phase: ScanPhase,
}

/// The model of [`ScanPhase`].
#[verifier::ext_equal]
pub enum ScanPhaseView {
    Opening(Seq<u8>),
    Listing,
    Checking { path: Seq<u8>, name: Seq<u8> },
    Done,
    Failed(Seq<char>),
}

/// The model of [`Scan`]: the open directories from the outermost to the innermost, the files
/// found so far, and where the scan stands.
#[verifier::ext_equal]
pub struct ScanView {
    pub dirs: Seq<Seq<u8>>,
    pub found: Seq<Seq<u8>>,
    pub phase: ScanPhaseView,
}

/// The model of [`ScanInput`].
#[verifier::ext_equal]
pub enum ScanInputView {
    Opened,
    OpenFailed,
    Entry(Seq<u8>),
    EntryFailed,
    NoMoreEntries,
    Is(EntryKind),
    CheckFailed,
}

impl View for ScanPhase {
    type V = ScanPhaseView;

    open spec fn view(&self) -> ScanPhaseView {
        match self {
            ScanPhase::Opening(p) => ScanPhaseView::Opening(p@),
            ScanPhase::Listing => ScanPhaseView::Listing,
            ScanPhase::Checking { path, name } => ScanPhaseView::Checking {
                path: path@,
                name: name@,
            },
            ScanPhase::Done => ScanPhaseView::Done,
            ScanPhase::Failed(e) => ScanPhaseView::Failed(e@),
        }
    }
}

impl View for ScanInput {
    type V = ScanInputView;

    open spec fn view(&self) -> ScanInputView {
        match self {
            ScanInput::Opened => ScanInputView::Opened,
            ScanInput::OpenFailed => ScanInputView::OpenFailed,
            ScanInput::Entry(n) => ScanInputView::Entry(n@),
            ScanInput::EntryFailed => ScanInputView::EntryFailed,
            ScanInput::NoMoreEntries => ScanInputView::NoMoreEntries,
            ScanInput::Is(k) => ScanInputView::Is(*k),
            ScanInput::CheckFailed => ScanInputView::CheckFailed,
        }
    }
}

impl View for Scan {
    type V = ScanView;

    closed spec fn view(&self) -> ScanView {
        ScanView { dirs: path_views(self.dirs@), found: path_views(self.found@), phase: self.phase@ }
    }
}

impl ScanView {
    /// While the scan reads entries, some directory is open.
    pub open spec fn wf(self) -> bool {
        self.phase is Listing || self.phase is Checking ==> self.dirs.len() > 0
    }

    /// The input answers what the scan asked for.
    pub open spec fn accepts(self, input: ScanInputView) -> bool {
        match self.phase {
            ScanPhaseView::Opening(_) => input is Opened || input is OpenFailed,
            ScanPhaseView::Listing => input is Entry || input is EntryFailed
                || input is NoMoreEntries,
            ScanPhaseView::Checking { .. } => input is Is || input is CheckFailed,
            _ => false,
        }
    }

    pub open spec fn with_phase(self, phase: ScanPhaseView) -> ScanView {
        ScanView { phase, ..self }
    }

    /// The scan after an answer.
    pub open spec fn next(self, input: ScanInputView) -> ScanView {
        match (self.phase, input) {
            (ScanPhaseView::Opening(dir), ScanInputView::Opened) => ScanView {
                dirs: self.dirs.push(dir),
                phase: ScanPhaseView::Listing,
                ..self
            },
            (ScanPhaseView::Opening(dir), ScanInputView::OpenFailed) => self.with_phase(
                ScanPhaseView::Failed("reading directory "@ + utf8_lossy_text(dir)),
            ),
            (ScanPhaseView::Listing, ScanInputView::Entry(name)) => if hidden(name) {
                self
            } else {
                let path = joined_path(self.dirs.last(), name);
                self.with_phase(ScanPhaseView::Checking { path, name })
            },
            (ScanPhaseView::Listing, ScanInputView::EntryFailed) => self.with_phase(
                ScanPhaseView::Failed("reading entry in "@ + utf8_lossy_text(self.dirs.last())),
            ),
            (ScanPhaseView::Listing, ScanInputView::NoMoreEntries) => ScanView {
                dirs: self.dirs.drop_last(),
                phase: if self.dirs.len() == 1 {
                    ScanPhaseView::Done
                } else {
                    ScanPhaseView::Listing
                },
                ..self
            },
            (ScanPhaseView::Checking { path, name }, ScanInputView::Is(kind)) => match kind {
                EntryKind::Dir => if skipped_dir(name) {
                    self.with_phase(ScanPhaseView::Listing)
                } else {
                    self.with_phase(ScanPhaseView::Opening(path))
                },
                EntryKind::File => ScanView {
                    found: self.found.push(path),
                    phase: ScanPhaseView::Listing,
                    ..self
                },
                EntryKind::Other => self.with_phase(ScanPhaseView::Listing),
            },
            (ScanPhaseView::Checking { path, name }, ScanInputView::CheckFailed) => if skipped_dir(
                name,
            ) {
                self.with_phase(ScanPhaseView::Listing)
            } else {
                self.with_phase(ScanPhaseView::Failed("stat "@ + utf8_lossy_text(path)))
            },
            _ => self,
        }
    }

    /// The scan after answers in a row.
    pub open spec fn run(self, inputs: Seq<ScanInputView>) -> ScanView
        decreases inputs.len(),
    {
        if inputs.len() == 0 {
            self
        } else {
            self.run(inputs.drop_last()).next(inputs.last())
        }
    }
}

/// A scan that has not begun.
pub open spec fn new_scan(root: Seq<u8>) -> ScanView {
    ScanView { dirs: seq![], found: seq![], phase: ScanPhaseView::Opening(root) }
}

/// What a scan in a phase asks for.
pub open spec fn asks(phase: ScanPhaseView, action: ScanAction) -> bool {
    match phase {
        ScanPhaseView::Opening(p) => action matches ScanAction::OpenDir(q) && q@ == p,
        ScanPhaseView::Listing => action is NextEntry,
        ScanPhaseView::Checking { path, .. } => action matches ScanAction::Check(q) && q@ == path,
        ScanPhaseView::Done => action is Finish,
        ScanPhaseView::Failed(_) => action is Finish,
    }
}

fn error_with_path(what: &str, path: &FilePath) -> (s: String)
    ensures
        s@ == what@ + utf8_lossy_text(path@),
{
    let mut s = text(what);
    s.append(path.display().as_str());
    s
}

impl Scan {
    /// A scan of the regular files below `root`.
    pub fn new(root: FilePath) -> (s: Scan)
        ensures
            s@ == new_scan(root@),
            s@.wf(),
    {
        let s = Scan { dirs: Vec::new(), found: Vec::new(), phase: ScanPhase::Opening(root) };
        assert(s@ == new_scan(root@));
        s
    }

    /// What the scan asks for next.
    pub fn next_action(&self) -> (action: ScanAction)
        ensures
            asks(self@.phase, action),
    {
        match &self.phase {
            ScanPhase::Opening(p) => ScanAction::OpenDir(p.clone()),
            ScanPhase::Listing => ScanAction::NextEntry,
            ScanPhase::Checking { path, .. } => ScanAction::Check(path.clone()),
            ScanPhase::Done => ScanAction::Finish,
            ScanPhase::Failed(_) => ScanAction::Finish,
        }
    }

    /// Takes what came of the last request.
    pub fn collect_files(&mut self, input: ScanInput)
        requires
            old(self)@.wf(),
            old(self)@.accepts(input@),
        ensures
            final(self)@ == old(self)@.next(input@),
            final(self)@.wf(),
    {
        let ghost before = self@;
        let mut phase = ScanPhase::Listing;
        std::mem::swap(&mut phase, &mut self.phase);
        match (phase, input) {
            (ScanPhase::Opening(dir), ScanInput::Opened) => {
                proof {
                    lemma_views_push(self.dirs@, dir);
                }
                self.dirs.push(dir);
            },
            (ScanPhase::Opening(dir), ScanInput::OpenFailed) => {
                self.phase = ScanPhase::Failed(error_with_path("reading directory ", &dir));
            },
            (ScanPhase::Listing, ScanInput::Entry(name)) => {
                if !is_hidden(&name) {
                    let dir = &self.dirs[self.dirs.len() - 1];
                    assert(path_views(self.dirs@).last() == dir@);
                    self.phase = ScanPhase::Checking { path: dir.join(&name), name };
                }
            },
            (ScanPhase::Listing, ScanInput::EntryFailed) => {
                let dir = &self.dirs[self.dirs.len() - 1];
                assert(path_views(self.dirs@).last() == dir@);
                self.phase = ScanPhase::Failed(error_with_path("reading entry in ", dir));
            },
            (ScanPhase::Listing, ScanInput::NoMoreEntries) => {
                let ghost dirs = path_views(self.dirs@);
                self.dirs.pop();
                assert(path_views(self.dirs@) == dirs.drop_last());
                if self.dirs.len() == 0 {
                    self.phase = ScanPhase::Done;
                }
            },
            (ScanPhase::Checking { path, name }, ScanInput::Is(kind)) => {
                match kind {
                    EntryKind::Dir => {
                        if !skips_dir(&name) {
                            self.phase = ScanPhase::Opening(path);
                        }
                    },
                    EntryKind::File => {
                        proof {
                            lemma_views_push(self.found@, path);
                        }
                        self.found.push(path);
                    },
                    EntryKind::Other => {},
                }
            },
            (ScanPhase::Checking { path, name }, ScanInput::CheckFailed) => {
                if !skips_dir(&name) {
                    self.phase = ScanPhase::Failed(error_with_path("stat ", &path));
                }
            },
            _ => {},
        }
        assert(self@ == before.next(input@));
    }

    /// What a scan that has ended found, in order, or what it failed at.
    pub fn finish(self) -> (r: Result<Vec<FilePath>, String>)
        requires
            self@.phase is Done || self@.phase is Failed,
        ensures
            r is Ok <==> self@.phase is Done,
            r matches Ok(files) ==> sorted_from(self@.found, path_views(files@)),
            r matches Err(e) ==> self@.phase == ScanPhaseView::Failed(e@),
    {
        match self.phase {
            ScanPhase::Failed(e) => Err(e),
            _ => Ok(sort_paths(self.found)),
        }
    }
}

/// What stands in a file system: a file, something else, or a directory with its entries in
/// the order in which they are listed.
pub enum Node {
    File,
    Other,
    Dir(Seq<Entry>),
}

/// A directory entry.
pub struct Entry {
    pub name: Seq<u8>,
    pub node: Node,
}

/// The regular files below a directory, in the order in which a walk meets them: those that are
/// not hidden, and those below directories that are neither hidden nor skipped.
pub open spec fn files_below(dir: Seq<u8>, entries: Seq<Entry>) -> Seq<Seq<u8>>
    decreases entries,
{
    if entries.len() == 0 {
        seq![]
    } else {
        let e = entries[entries.len() - 1];
        let path = joined_path(dir, e.name);
        let here = if hidden(e.name) {
            seq![]
        } else {
            match entries[entries.len() - 1].node {
                Node::File => seq![path],
                Node::Other => seq![],
                Node::Dir(below) => if skipped_dir(e.name) {
                    seq![]
                } else {
                    files_below(path, below)
                },
            }
        };
        files_below(dir, entries.drop_last()) + here
    }
}

/// What a file system answers while the entries of an open directory are read.
pub open spec fn answers(entries: Seq<Entry>) -> Seq<ScanInputView>
    decreases entries,
{
    if entries.len() == 0 {
        seq![]
    } else {
        let e = entries[entries.len() - 1];
        let more = if hidden(e.name) {
            seq![]
        } else {
            match entries[entries.len() - 1].node {
                Node::File => seq![ScanInputView::Is(EntryKind::File)],
                Node::Other => seq![ScanInputView::Is(EntryKind::Other)],
                Node::Dir(below) => if skipped_dir(e.name) {
                    seq![ScanInputView::Is(EntryKind::Dir)]
                } else {
                    seq![ScanInputView::Is(EntryKind::Dir), ScanInputView::Opened] + answers(below)
                        + seq![ScanInputView::NoMoreEntries]
                },
            }
        };
        answers(entries.drop_last()) + seq![ScanInputView::Entry(e.name)] + more
    }
}

proof fn lemma_run_concat(v: ScanView, a: Seq<ScanInputView>, b: Seq<ScanInputView>)
    ensures
        v.run(a + b) == v.run(a).run(b),
    decreases b.len(),
{
    if b.len() == 0 {
        assert(a + b == a);
    } else {
        lemma_run_concat(v, a, b.drop_last());
        assert((a + b).drop_last() == a + b.drop_last());
        assert((a + b).last() == b.last());
    }
}

proof fn lemma_run_one(v: ScanView, i: ScanInputView)
    ensures
        v.run(seq![i]) == v.next(i),
{
    assert(seq![i].drop_last() == Seq::<ScanInputView>::empty());
    assert(v.run(seq![i].drop_last()) == v);
}

/// Reading the entries of the innermost directory adds the files below it and leaves the open
/// directories as they were.
proof fn lemma_listing(v: ScanView, entries: Seq<Entry>)
    requires
        v.phase is Listing,
        v.dirs.len() > 0,
    ensures
        v.run(answers(entries)) == (ScanView {
            found: v.found + files_below(v.dirs.last(), entries),
            ..v
        }),
    decreases entries,
{
    let dir = v.dirs.last();
    if entries.len() == 0 {
        assert(v.found + files_below(dir, entries) == v.found);
    } else {
        let e = entries[entries.len() - 1];
        let front = entries.drop_last();
        lemma_listing(v, front);
        let w = ScanView { found: v.found + files_below(dir, front), ..v };
        let path = joined_path(dir, e.name);
        let a = answers(front);
        let b = seq![ScanInputView::Entry(e.name)];
        lemma_run_concat(v, a, b);
        lemma_run_one(w, ScanInputView::Entry(e.name));
        if hidden(e.name) {
            assert(answers(entries) == a + b);
            assert(v.found + files_below(dir, entries) == w.found);
        } else {
            let x = w.with_phase(ScanPhaseView::Checking { path, name: e.name });
            match entries[entries.len() - 1].node {
                Node::File => {
                    let c = seq![ScanInputView::Is(EntryKind::File)];
                    assert(answers(entries) == (a + b) + c);
                    lemma_run_concat(v, a + b, c);
                    lemma_run_one(x, ScanInputView::Is(EntryKind::File));
                    assert(v.found + files_below(dir, entries) == w.found.push(path));
                },
                Node::Other => {
                    let c = seq![ScanInputView::Is(EntryKind::Other)];
                    assert(answers(entries) == (a + b) + c);
                    lemma_run_concat(v, a + b, c);
                    lemma_run_one(x, ScanInputView::Is(EntryKind::Other));
                    assert(v.found + files_below(dir, entries) == w.found);
                },
                Node::Dir(below) if skipped_dir(e.name) => {
                    let c = seq![ScanInputView::Is(EntryKind::Dir)];
                    assert(answers(entries) == (a + b) + c);
                    lemma_run_concat(v, a + b, c);
                    lemma_run_one(x, ScanInputView::Is(EntryKind::Dir));
                    assert(v.found + files_below(dir, entries) == w.found);
                },
                Node::Dir(below) => {
                    let c1 = seq![ScanInputView::Is(EntryKind::Dir)];
                    let c2 = seq![ScanInputView::Opened];
                    let d = answers(below);
                    let c3 = seq![ScanInputView::NoMoreEntries];
                    assert(answers(entries) == ((((a + b) + c1) + c2) + d) + c3);
                    lemma_run_concat(v, a + b, c1);
                    lemma_run_one(x, ScanInputView::Is(EntryKind::Dir));
                    lemma_run_concat(v, (a + b) + c1, c2);
                    let y = x.with_phase(ScanPhaseView::Opening(path));
                    lemma_run_one(y, ScanInputView::Opened);
                    let z = ScanView {
                        dirs: v.dirs.push(path),
                        phase: ScanPhaseView::Listing,
                        ..w
                    };
                    lemma_run_concat(v, ((a + b) + c1) + c2, d);
                    lemma_listing(z, below);
                    let u = ScanView { found: z.found + files_below(path, below), ..z };
                    lemma_run_concat(v, (((a + b) + c1) + c2) + d, c3);
                    lemma_run_one(u, ScanInputView::NoMoreEntries);
                    assert(v.dirs.push(path).drop_last() == v.dirs);
                    assert(v.found + files_below(dir, entries) == u.found);
                },
            }
        }
    }
}

/// Discovery finds the files below the root that are not hidden or skipped, nor below a directory
/// that is: a scan whose requests a file system answers truly ends with them.
pub proof fn law_scan_finds_files(root: Seq<u8>, entries: Seq<Entry>)
    ensures
        new_scan(root).run(
            seq![ScanInputView::Opened] + answers(entries) + seq![ScanInputView::NoMoreEntries],
        ) == (ScanView {
            dirs: seq![],
            found: files_below(root, entries),
            phase: ScanPhaseView::Done,
        }),
{
    let v = new_scan(root);
    let a = seq![ScanInputView::Opened];
    lemma_run_one(v, ScanInputView::Opened);
    let w = ScanView { dirs: v.dirs.push(root), phase: ScanPhaseView::Listing, ..v };
    lemma_run_concat(v, a, answers(entries));
    lemma_listing(w, entries);
    let x = ScanView { found: w.found + files_below(root, entries), ..w };
    lemma_run_concat(v, a + answers(entries), seq![ScanInputView::NoMoreEntries]);
    lemma_run_one(x, ScanInputView::NoMoreEntries);
    assert(x.found == files_below(root, entries));
    assert(x.dirs.drop_last() == Seq::<Seq<u8>>::empty());
}

/// The path that names lead to from a directory.
pub open spec fn path_through(dir: Seq<u8>, names: Seq<Seq<u8>>) -> Seq<u8>
    decreases names.len(),
{
    if names.len() == 0 {
        dir
    } else {
        path_through(joined_path(dir, names[0]), names.skip(1))
    }
}

/// The names lead, from a directory with these entries, to a regular file.
pub open spec fn file_at(entries: Seq<Entry>, names: Seq<Seq<u8>>) -> bool
    decreases names.len(),
{
    names.len() > 0 && exists|i: int|
        0 <= i < entries.len() && (#[trigger] entries[i]).name == names[0] && (
        match entries[i].node {
            Node::File => names.len() == 1,
            Node::Other => false,
            Node::Dir(below) => names.len() > 1 && file_at(below, names.skip(1)),
        })
}

/// Discovery goes along these names: none is hidden, and none of the directories on the way,
/// which are all but the last name, is skipped.
pub open spec fn listed(names: Seq<Seq<u8>>) -> bool {
    &&& forall|k: int| 0 <= k < names.len() ==> !hidden(#[trigger] names[k])
    &&& forall|k: int| 0 <= k < names.len() - 1 ==> !skipped_dir(#[trigger] names[k])
}

/// The path of a regular file below a directory that discovery has to list.
pub open spec fn to_be_found(dir: Seq<u8>, entries: Seq<Entry>, path: Seq<u8>) -> bool {
    exists|names: Seq<Seq<u8>>|
        file_at(entries, names) && listed(names) && path == #[trigger] path_through(dir, names)
}

proof fn lemma_path_through_one(dir: Seq<u8>, name: Seq<u8>)
    ensures
        path_through(dir, seq![name]) == joined_path(dir, name),
{
    let one = seq![name];
    assert(one.skip(1) == Seq::<Seq<u8>>::empty());
    assert(path_through(joined_path(dir, name), one.skip(1)) == joined_path(dir, name));
}

/// Names that lead to a file among some entries do so among more.
proof fn lemma_file_at_more(front: Seq<Entry>, entries: Seq<Entry>, names: Seq<Seq<u8>>)
    requires
        front.is_prefix_of(entries),
        file_at(front, names),
    ensures
        file_at(entries, names),
{
    let i = choose|i: int|
        0 <= i < front.len() && (#[trigger] front[i]).name == names[0] && (match front[i].node {
            Node::File => names.len() == 1,
            Node::Other => false,
            Node::Dir(below) => names.len() > 1 && file_at(below, names.skip(1)),
        });
    assert(entries[i] == front[i]);
}

proof fn lemma_found_is_wanted(dir: Seq<u8>, entries: Seq<Entry>, k: int)
    requires
        0 <= k < files_below(dir, entries).len(),
    ensures
        to_be_found(dir, entries, files_below(dir, entries)[k]),
    decreases entries,
{
    let all = files_below(dir, entries);
    let e = entries[entries.len() - 1];
    let front = entries.drop_last();
    let n = files_below(dir, front).len();
    if k < n {
        lemma_found_is_wanted(dir, front, k);
        assert(all[k] == files_below(dir, front)[k]);
        let names = choose|names: Seq<Seq<u8>>|
            file_at(front, names) && listed(names) && all[k] == #[trigger] path_through(dir, names);
        lemma_file_at_more(front, entries, names);
        assert(to_be_found(dir, entries, all[k]));
    } else {
        let path = joined_path(dir, e.name);
        let one = seq![e.name];
        lemma_path_through_one(dir, e.name);
        match entries[entries.len() - 1].node {
            Node::File => {
                assert(all[k] == path);
                assert(entries[entries.len() - 1].name == one[0]);
                assert(file_at(entries, one));
                assert(path_through(dir, one) == path);
            },
            Node::Other => {},
            Node::Dir(below) => {
                let inner = files_below(path, below);
                lemma_found_is_wanted(path, below, k - n);
                assert(all[k] == inner[k - n]);
                let names = choose|names: Seq<Seq<u8>>|
                    file_at(below, names) && listed(names) && inner[k - n] == #[trigger]
                        path_through(path, names);
                let more = one + names;
                assert(more.skip(1) == names);
                assert(more[0] == e.name);
                assert forall|j: int| 0 <= j < more.len() implies !hidden(#[trigger] more[j]) by {
                    if j > 0 {
                        assert(more[j] == names[j - 1]);
                    }
                }
                assert forall|j: int| 0 <= j < more.len() - 1 implies !skipped_dir(
                    #[trigger] more[j],
                ) by {
                    if j > 0 {
                        assert(more[j] == names[j - 1]);
                    }
                }
                assert(entries[entries.len() - 1].name == more[0]);
                assert(file_at(entries, more));
                assert(path_through(dir, more) == all[k]);
            },
        }
    }
}

/// What one entry brings is among the files below its directory.
proof fn lemma_entry_found(dir: Seq<u8>, entries: Seq<Entry>, i: int, path: Seq<u8>)
    requires
        0 <= i < entries.len(),
        !hidden(entries[i].name),
        match entries[i].node {
            Node::File => path == joined_path(dir, entries[i].name),
            Node::Other => false,
            Node::Dir(below) => !skipped_dir(entries[i].name) && files_below(
                joined_path(dir, entries[i].name),
                below,
            ).contains(path),
        },
    ensures
        files_below(dir, entries).contains(path),
    decreases entries.len(),
{
    let all = files_below(dir, entries);
    let front = files_below(dir, entries.drop_last());
    if i < entries.len() - 1 {
        assert(entries.drop_last()[i] == entries[i]);
        lemma_entry_found(dir, entries.drop_last(), i, path);
        let k = choose|k: int| 0 <= k < front.len() && front[k] == path;
        assert(all[k] == path);
    } else {
        match entries[i].node {
            Node::File => {
                assert(all[front.len() as int] == path);
            },
            Node::Other => {},
            Node::Dir(below) => {
                let inner = files_below(joined_path(dir, entries[i].name), below);
                let k = choose|k: int| 0 <= k < inner.len() && inner[k] == path;
                assert(all[front.len() + k] == path);
            },
        }
    }
}

proof fn lemma_wanted_is_found(dir: Seq<u8>, entries: Seq<Entry>, names: Seq<Seq<u8>>)
    requires
        file_at(entries, names),
        listed(names),
    ensures
        files_below(dir, entries).contains(path_through(dir, names)),
    decreases names.len(),
{
    let i = choose|i: int|
        0 <= i < entries.len() && (#[trigger] entries[i]).name == names[0] && (
        match entries[i].node {
            Node::File => names.len() == 1,
            Node::Other => false,
            Node::Dir(below) => names.len() > 1 && file_at(below, names.skip(1)),
        });
    let path = joined_path(dir, names[0]);
    match entries[i].node {
        Node::File => {
            assert(names == seq![names[0]]);
            lemma_path_through_one(dir, names[0]);
        },
        Node::Other => {},
        Node::Dir(below) => {
            let rest = names.skip(1);
            assert forall|k: int| 0 <= k < rest.len() implies !hidden(#[trigger] rest[k]) by {
                assert(rest[k] == names[k + 1]);
            }
            assert forall|k: int| 0 <= k < rest.len() - 1 implies !skipped_dir(
                #[trigger] rest[k],
            ) by {
                assert(rest[k] == names[k + 1]);
            }
            lemma_wanted_is_found(path, below, rest);
        },
    }
    lemma_entry_found(dir, entries, i, path_through(dir, names));
}

/// Discovery lists exactly the regular files that are not hidden and that no hidden or skipped
/// directory leads to. A skipped name is that of a directory: a file of that name is listed.
pub proof fn law_scan_finds_exactly(dir: Seq<u8>, entries: Seq<Entry>, path: Seq<u8>)
    ensures
        files_below(dir, entries).contains(path) <==> to_be_found(dir, entries, path),
{
    if files_below(dir, entries).contains(path) {
        let k = choose|k: int|
            0 <= k < files_below(dir, entries).len() && files_below(dir, entries)[k] == path;
        lemma_found_is_wanted(dir, entries, k);
    }
    if to_be_found(dir, entries, path) {
        let names = choose|names: Seq<Seq<u8>>|
            file_at(entries, names) && listed(names) && path == #[trigger] path_through(dir, names);
        lemma_wanted_is_found(dir, entries, names);
    }
}

/// A name that an entry can have: not empty, and without a slash.
pub open spec fn proper(name: Seq<u8>) -> bool {
    name.len() > 0 && forall|k: int| 0 <= k < name.len() ==> name[k] != 0x2f
}

/// In every directory the entries have proper names, all different.
pub open spec fn well_named(entries: Seq<Entry>) -> bool
    decreases entries,
{
    &&& forall|i: int| 0 <= i < entries.len() ==> proper((#[trigger] entries[i]).name)
    &&& forall|i: int, j: int|
        0 <= i < j < entries.len() ==> (#[trigger] entries[i]).name != (#[trigger] entries[j]).name
    &&& forall|i: int|
        0 <= i < entries.len() ==> match (#[trigger] entries[i]).node {
            Node::Dir(below) => well_named(below),
            _ => true,
        }
}

proof fn lemma_well_named_front(entries: Seq<Entry>)
    requires
        well_named(entries),
        entries.len() > 0,
    ensures
        well_named(entries.drop_last()),
{
    let front = entries.drop_last();
    assert forall|i: int| 0 <= i < front.len() implies proper((#[trigger] front[i]).name) by {
        assert(front[i] == entries[i]);
    }
    assert forall|i: int, j: int| 0 <= i < j < front.len() implies (#[trigger] front[i]).name != (
    #[trigger] front[j]).name by {
        assert(front[i] == entries[i] && front[j] == entries[j]);
    }
    assert forall|i: int| 0 <= i < front.len() implies match (#[trigger] front[i]).node {
        Node::Dir(below) => well_named(below),
        _ => true,
    } by {
        assert(front[i] == entries[i]);
    }
}

/// The path is that of a name in the directory, or goes on from there with a slash.
spec fn under(dir: Seq<u8>, name: Seq<u8>, path: Seq<u8>) -> bool {
    exists|rest: Seq<u8>|
        (rest.len() == 0 || rest[0] == 0x2f) && path == #[trigger] (joined_path(dir, name) + rest)
}

/// Every file found lies under one of the entries.
proof fn lemma_under(dir: Seq<u8>, entries: Seq<Entry>, k: int) -> (i: int)
    requires
        well_named(entries),
        0 <= k < files_below(dir, entries).len(),
    ensures
        0 <= i < entries.len(),
        under(dir, entries[i].name, files_below(dir, entries)[k]),
        k >= files_below(dir, entries.drop_last()).len() ==> i == entries.len() - 1,
        k < files_below(dir, entries.drop_last()).len() ==> i < entries.len() - 1,
    decreases entries,
{
    let all = files_below(dir, entries);
    let e = entries[entries.len() - 1];
    let front = files_below(dir, entries.drop_last());
    if k < front.len() {
        lemma_well_named_front(entries);
        assert(all[k] == front[k]);
        lemma_under(dir, entries.drop_last(), k)
    } else {
        let path = joined_path(dir, e.name);
        match entries[entries.len() - 1].node {
            Node::File => {
                assert(all[k] == path + Seq::<u8>::empty());
            },
            Node::Other => {},
            Node::Dir(below) => {
                assert(well_named(below));
                let inner = files_below(path, below);
                let j = lemma_under(path, below, k - front.len());
                assert(all[k] == inner[k - front.len()]);
                let rest = choose|rest: Seq<u8>|
                    (rest.len() == 0 || rest[0] == 0x2f) && all[k] == #[trigger] (joined_path(
                        path,
                        below[j].name,
                    ) + rest);
                assert(proper(e.name));
                assert(path.last() == e.name.last());
                let more = seq![0x2fu8] + below[j].name + rest;
                assert(all[k] == path + more);
            },
        }
        entries.len() - 1
    }
}

proof fn lemma_under_one_name(dir: Seq<u8>, x: Seq<u8>, y: Seq<u8>, path: Seq<u8>)
    requires
        proper(x),
        proper(y),
        under(dir, x, path),
        under(dir, y, path),
    ensures
        x == y,
{
    let r = choose|rest: Seq<u8>|
        (rest.len() == 0 || rest[0] == 0x2f) && path == #[trigger] (joined_path(dir, x) + rest);
    let s = choose|rest: Seq<u8>|
        (rest.len() == 0 || rest[0] == 0x2f) && path == #[trigger] (joined_path(dir, y) + rest);
    let n = joined_path(dir, x).len() - x.len();
    let left = x + r;
    let right = y + s;
    assert(path.skip(n) == left);
    assert(path.skip(n) == right);
    lemma_part_len(left, x.len() as int);
    lemma_part_len(right, y.len() as int);
    assert(left.take(x.len() as int) == x);
    assert(right.take(y.len() as int) == y);
}

/// Discovery lists no file twice.
pub proof fn law_scan_lists_once(dir: Seq<u8>, entries: Seq<Entry>)
    requires
        well_named(entries),
    ensures
        files_below(dir, entries).no_duplicates(),
    decreases entries,
{
    let all = files_below(dir, entries);
    if entries.len() > 0 {
        let e = entries[entries.len() - 1];
        let front = files_below(dir, entries.drop_last());
        lemma_well_named_front(entries);
        law_scan_lists_once(dir, entries.drop_last());
        if let Node::Dir(below) = entries[entries.len() - 1].node {
            law_scan_lists_once(joined_path(dir, e.name), below);
        }
        assert forall|i: int, j: int| 0 <= i < j < all.len() implies all[i] != all[j] by {
            if j < front.len() {
                assert(all[i] == front[i] && all[j] == front[j]);
            } else if i < front.len() {
                if all[i] == all[j] {
                    let a = lemma_under(dir, entries, i);
                    let b = lemma_under(dir, entries, j);
                    lemma_under_one_name(dir, entries[a].name, entries[b].name, all[i]);
                }
            } else if let Node::Dir(below) = entries[entries.len() - 1].node {
                let inner = files_below(joined_path(dir, e.name), below);
                assert(all[i] == inner[i - front.len()]);
                assert(all[j] == inner[j - front.len()]);
            }
        }
    }
}

/// A list in order is the only one with its paths.
proof fn lemma_order_unique(r: Seq<Seq<u8>>, s: Seq<Seq<u8>>)
    requires
        in_order(r),
        in_order(s),
        r.to_multiset() == s.to_multiset(),
    ensures
        r == s,
    decreases r.len(),
{
    r.to_multiset_ensures();
    s.to_multiset_ensures();
    if r.len() > 0 {
        assert(r.contains(r.last()));
        assert(s.contains(s.last()));
        assert(s.to_multiset().count(r.last()) > 0);
        assert(r.to_multiset().count(s.last()) > 0);
        let i = choose|i: int| 0 <= i < s.len() && s[i] == r.last();
        let j = choose|j: int| 0 <= j < r.len() && r[j] == s.last();
        if r.last() != s.last() {
            assert(path_le(s[i], s[s.len() - 1]));
            assert(path_le(r[j], r[r.len() - 1]));
            law_path_order_antisymmetric(r.last(), s.last());
        }
        let a = r.drop_last();
        let b = s.drop_last();
        lemma_multiset_concat_last(r);
        lemma_multiset_concat_last(s);
        assert(a.to_multiset() =~= r.to_multiset().remove(r.last()));
        assert(b.to_multiset() =~= s.to_multiset().remove(s.last()));
        assert forall|i: int, j: int| 0 <= i < j < a.len() implies path_le(
            #[trigger] a[i],
            #[trigger] a[j],
        ) by {
            assert(a[i] == r[i] && a[j] == r[j]);
        }
        assert forall|i: int, j: int| 0 <= i < j < b.len() implies path_le(
            #[trigger] b[i],
            #[trigger] b[j],
        ) by {
            assert(b[i] == s[i] && b[j] == s[j]);
        }
        lemma_order_unique(a, b);
        assert(r == a.push(r.last()));
        assert(s == b.push(s.last()));
    } else {
        assert(r == s);
    }
}

/// The order in which directories list their entries does not matter: two listings of one tree
/// give the same list in the end.
pub proof fn law_listing_order_is_irrelevant(
    dir: Seq<u8>,
    a: Seq<Entry>,
    b: Seq<Entry>,
    r: Seq<Seq<u8>>,
    s: Seq<Seq<u8>>,
)
    requires
        well_named(a),
        well_named(b),
        forall|names: Seq<Seq<u8>>| #[trigger] file_at(a, names) == file_at(b, names),
        sorted_from(files_below(dir, a), r),
        sorted_from(files_below(dir, b), s),
    ensures
        r == s,
{
    let x = files_below(dir, a);
    let y = files_below(dir, b);
    law_scan_lists_once(dir, a);
    law_scan_lists_once(dir, b);
    x.lemma_multiset_has_no_duplicates();
    y.lemma_multiset_has_no_duplicates();
    x.to_multiset_ensures();
    y.to_multiset_ensures();
    assert forall|p: Seq<u8>| x.to_multiset().count(p) == y.to_multiset().count(p) by {
        law_scan_finds_exactly(dir, a, p);
        law_scan_finds_exactly(dir, b, p);
        if to_be_found(dir, a, p) {
            let names = choose|names: Seq<Seq<u8>>|
                file_at(a, names) && listed(names) && p == #[trigger] path_through(dir, names);
            assert(file_at(b, names));
        }
        if to_be_found(dir, b, p) {
            let names = choose|names: Seq<Seq<u8>>|
                file_at(b, names) && listed(names) && p == #[trigger] path_through(dir, names);
            assert(file_at(a, names));
        }
        assert(x.contains(p) == y.contains(p));
        assert(x.contains(p) == x.to_multiset().contains(p));
        assert(y.contains(p) == y.to_multiset().contains(p));
    }
    assert(x.to_multiset() =~= y.to_multiset());
    lemma_order_unique(r, s);
}

/// Resolve the file list: the explicit paths where there are any. Where there are none, all
/// regular files under `.` are meant, and the scan that finds them is handed back.
pub fn resolve_files(explicit: Vec<FilePath>) -> (r: Result<Vec<FilePath>, Scan>)
    ensures
        r is Ok <==> explicit@.len() > 0,
        r matches Ok(files) ==> files == explicit,
        r matches Err(scan) ==> scan@ == new_scan(seq![0x2eu8]) && scan@.wf(),
{
    if explicit.len() > 0 {
        return Ok(explicit);
    }
    let mut dot: Vec<u8> = Vec::new();
    dot.push(0x2e);
    assert(dot@ == seq![0x2eu8]);
    Err(Scan::new(FilePath { bytes: dot }))
}

} // verus!
