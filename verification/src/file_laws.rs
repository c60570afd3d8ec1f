//! What holds of paths and of discovery.
use vstd::prelude::*;
use vstd::utf8::{encode_utf8, is_ascii_chars, is_ascii_chars_encode_utf8};

use crate::files::{
    asks, file_at, files_below, hidden, law_scan_finds_exactly, listed, new_scan, path_through,
    skipped_dir, sorted_from, to_be_found, Entry, EntryKind, ScanAction, ScanInput, ScanInputView,
    ScanPhaseView, ScanView,
};
use crate::path::{joined_path, path_key, path_le, path_views, FilePath};
use crate::text::utf8_lossy_text;

verus! {

/// The six names of directories that discovery passes over: `target`, `node_modules`,
/// `__pycache__`, `dist`, `build` and `.git`.
pub open spec fn build_name(name: Seq<u8>) -> bool {
    ||| name == seq![0x74u8, 0x61, 0x72, 0x67, 0x65, 0x74]
    ||| name == seq![
        0x6eu8,
        0x6f,
        0x64,
        0x65,
        0x5f,
        0x6d,
        0x6f,
        0x64,
        0x75,
        0x6c,
        0x65,
        0x73,
    ]
    ||| name == seq![0x5fu8, 0x5f, 0x70, 0x79, 0x63, 0x61, 0x63, 0x68, 0x65, 0x5f, 0x5f]
    ||| name == seq![0x64u8, 0x69, 0x73, 0x74]
    ||| name == seq![0x62u8, 0x75, 0x69, 0x6c, 0x64]
    ||| name == seq![0x2eu8, 0x67, 0x69, 0x74]
}

/// Discovery goes along the names: none starts with a dot, and no directory on the way is called
/// like a build directory.
pub open spec fn open_way(names: Seq<Seq<u8>>) -> bool {
    &&& forall|k: int|
        0 <= k < names.len() ==> (#[trigger] names[k]).len() == 0 || names[k][0] != 0x2e
    &&& forall|k: int| 0 <= k < names.len() - 1 ==> !build_name(#[trigger] names[k])
}

proof fn lemma_ascii(s: Seq<char>, bytes: Seq<u8>)
    requires
        s.len() == bytes.len(),
        forall|i: int|
            0 <= i < s.len() ==> s[i] as int == (#[trigger] bytes[i]) as int && bytes[i] < 0x80,
    ensures
        encode_utf8(s) == bytes,
{
    assert forall|i: int| 0 <= i < s.len() implies '\0' <= #[trigger] s[i] <= '\u{7f}' by {
        assert(s[i] as int == bytes[i] as int);
    }
    assert(is_ascii_chars(s));
    is_ascii_chars_encode_utf8(s);
    assert(encode_utf8(s) =~= bytes);
}

proof fn lemma_build_names(name: Seq<u8>)
    ensures
        skipped_dir(name) == build_name(name),
{
    reveal_strlit("target");
    reveal_strlit("node_modules");
    reveal_strlit("__pycache__");
    reveal_strlit("dist");
    reveal_strlit("build");
    reveal_strlit(".git");
    lemma_ascii("target"@, seq![0x74u8, 0x61, 0x72, 0x67, 0x65, 0x74]);
    lemma_ascii(
        "node_modules"@,
        seq![0x6eu8, 0x6f, 0x64, 0x65, 0x5f, 0x6d, 0x6f, 0x64, 0x75, 0x6c, 0x65, 0x73],
    );
    lemma_ascii(
        "__pycache__"@,
        seq![0x5fu8, 0x5f, 0x70, 0x79, 0x63, 0x61, 0x63, 0x68, 0x65, 0x5f, 0x5f],
    );
    lemma_ascii("dist"@, seq![0x64u8, 0x69, 0x73, 0x74]);
    lemma_ascii("build"@, seq![0x62u8, 0x75, 0x69, 0x6c, 0x64]);
    lemma_ascii(".git"@, seq![0x2eu8, 0x67, 0x69, 0x74]);
}

proof fn lemma_open_way(names: Seq<Seq<u8>>)
    ensures
        listed(names) == open_way(names),
{
    assert forall|k: int| 0 <= k < names.len() implies hidden(#[trigger] names[k]) == !(
    names[k].len() == 0 || names[k][0] != 0x2e) && skipped_dir(names[k]) == build_name(
        names[k],
    ) by {
        lemma_build_names(names[k]);
    }
}

/// Every regular file is listed that no name starting with a dot and no directory called like a
/// build directory leads to.
pub proof fn law_open_files_are_listed(dir: Seq<u8>, entries: Seq<Entry>, names: Seq<Seq<u8>>)
    requires
        file_at(entries, names),
        open_way(names),
    ensures
        files_below(dir, entries).contains(path_through(dir, names)),
{
    lemma_open_way(names);
    assert(to_be_found(dir, entries, path_through(dir, names)));
    law_scan_finds_exactly(dir, entries, path_through(dir, names));
}

/// Nothing else is listed.
pub proof fn law_only_open_files_are_listed(dir: Seq<u8>, entries: Seq<Entry>, path: Seq<u8>)
    requires
        files_below(dir, entries).contains(path),
    ensures
        exists|names: Seq<Seq<u8>>|
            file_at(entries, names) && open_way(names) && path == #[trigger] path_through(
                dir,
                names,
            ),
{
    law_scan_finds_exactly(dir, entries, path);
    let names = choose|names: Seq<Seq<u8>>|
        file_at(entries, names) && listed(names) && path == #[trigger] path_through(dir, names);
    lemma_open_way(names);
}

/// The path of a name in a directory has one slash between the two, and the path that names lead
/// to is built from the first name on.
pub proof fn law_paths(dir: Seq<u8>, name: Seq<u8>, names: Seq<Seq<u8>>)
    ensures
        dir.len() > 0 && dir.last() != 0x2f ==> joined_path(dir, name) == dir + seq![0x2fu8]
            + name,
        dir.len() == 0 || dir.last() == 0x2f ==> joined_path(dir, name) == dir + name,
        path_through(dir, seq![name] + names) == path_through(joined_path(dir, name), names),
        path_through(dir, Seq::<Seq<u8>>::empty()) == dir,
{
    assert(dir.push(0x2f) + name == dir + seq![0x2fu8] + name);
    assert((seq![name] + names).skip(1) == names);
}

/// The order of paths is decided where they first differ, a slash coming before every other byte
/// and other bytes by their value; and what a path goes on from comes before it.
pub proof fn law_path_order(same: Seq<u8>, x: u8, y: u8, a: Seq<u8>, b: Seq<u8>)
    ensures
        x != y ==> path_le(same + seq![x] + a, same + seq![y] + b) == (x == 0x2f || (y != 0x2f && x
            < y)),
        path_le(same, same + a),
        a.len() > 0 ==> !path_le(same + a, same),
    decreases same.len(),
{
    let p = same + seq![x] + a;
    let q = same + seq![y] + b;
    if same.len() > 0 {
        let rest = same.skip(1);
        law_path_order(rest, x, y, a, b);
        assert(p.skip(1) == rest + seq![x] + a);
        assert(q.skip(1) == rest + seq![y] + b);
        assert((same + a).skip(1) == rest + a);
        assert(same[0] == p[0] && same[0] == q[0]);
    } else {
        assert(p[0] == x && q[0] == y);
        assert(path_key(x) == path_key(y) ==> x == y);
    }
}

/// A scan starts at its root with nothing found, and a step that fails ends it with what failed.
pub proof fn law_scan_failures(v: ScanView, root: Seq<u8>, dir: Seq<u8>, name: Seq<u8>)
    ensures
        new_scan(root) == (ScanView {
            dirs: seq![],
            found: seq![],
            phase: ScanPhaseView::Opening(root),
        }),
        v.phase == ScanPhaseView::Opening(dir) ==> v.next(ScanInputView::OpenFailed) == (ScanView {
            phase: ScanPhaseView::Failed("reading directory "@ + utf8_lossy_text(dir)),
            ..v
        }),
        v.phase is Listing ==> v.next(ScanInputView::EntryFailed) == (ScanView {
            phase: ScanPhaseView::Failed("reading entry in "@ + utf8_lossy_text(v.dirs.last())),
            ..v
        }),
        v.phase == (ScanPhaseView::Checking { path: dir, name }) && !build_name(name) ==> v.next(
            ScanInputView::CheckFailed,
        ) == (ScanView {
            phase: ScanPhaseView::Failed("stat "@ + utf8_lossy_text(dir)),
            ..v
        }),
{
    lemma_build_names(name);
}

/// How a scan goes through a directory: an entry that starts with a dot is passed over and any
/// other looked at; a file is added, a directory opened unless it is called like a build
/// directory, and anything else left. At the end of a directory the scan goes on in the one
/// above it, and ends with the outermost.
pub proof fn law_scan_steps(v: ScanView, dir: Seq<u8>, name: Seq<u8>, path: Seq<u8>)
    ensures
        v.phase == ScanPhaseView::Opening(dir) ==> v.next(ScanInputView::Opened) == (ScanView {
            dirs: v.dirs.push(dir),
            phase: ScanPhaseView::Listing,
            ..v
        }),
        v.phase is Listing ==> v.next(ScanInputView::Entry(name)) == if name.len() > 0 && name[0]
            == 0x2e {
            v
        } else {
            ScanView {
                phase: ScanPhaseView::Checking { path: joined_path(v.dirs.last(), name), name },
                ..v
            }
        },
        v.phase is Listing ==> v.next(ScanInputView::NoMoreEntries) == (ScanView {
            dirs: v.dirs.drop_last(),
            phase: if v.dirs.len() == 1 {
                ScanPhaseView::Done
            } else {
                ScanPhaseView::Listing
            },
            ..v
        }),
        v.phase == (ScanPhaseView::Checking { path, name }) ==> {
            &&& v.next(ScanInputView::Is(EntryKind::File)) == (ScanView {
                found: v.found.push(path),
                phase: ScanPhaseView::Listing,
                ..v
            })
            &&& v.next(ScanInputView::Is(EntryKind::Other)) == (ScanView {
                phase: ScanPhaseView::Listing,
                ..v
            })
            &&& v.next(ScanInputView::Is(EntryKind::Dir)) == (ScanView {
                phase: if build_name(name) {
                    ScanPhaseView::Listing
                } else {
                    ScanPhaseView::Opening(path)
                },
                ..v
            })
            &&& build_name(name) ==> v.next(ScanInputView::CheckFailed) == (ScanView {
                phase: ScanPhaseView::Listing,
                ..v
            })
        },
{
    lemma_build_names(name);
}

/// The views of paths are the paths.
pub proof fn law_path_views(v: Seq<FilePath>, p: FilePath)
    ensures
        p@ == p.bytes@,
        path_views(v).len() == v.len(),
        forall|i: int| 0 <= i < v.len() ==> #[trigger] path_views(v)[i] == v[i].bytes@,
{
}

/// Paths in order are the same paths, each as often as before, and no path stands behind one that
/// comes after it.
pub proof fn law_sorted(v: Seq<Seq<u8>>, r: Seq<Seq<u8>>)
    requires
        sorted_from(v, r),
    ensures
        r.len() == v.len(),
        forall|p: Seq<u8>| #[trigger] r.to_multiset().count(p) == v.to_multiset().count(p),
        forall|p: Seq<u8>| #[trigger] r.contains(p) <==> v.contains(p),
        forall|i: int, j: int| 0 <= i < j < r.len() ==> path_le(#[trigger] r[i], #[trigger] r[j]),
{
    r.to_multiset_ensures();
    v.to_multiset_ensures();
    assert forall|p: Seq<u8>| #[trigger] r.contains(p) <==> v.contains(p) by {
        assert(r.contains(p) <==> r.to_multiset().count(p) > 0);
        assert(v.contains(p) <==> v.to_multiset().count(p) > 0);
    }
}

/// What a scan asks for: the directory to open, the next entry, or what the entry at a path is.
pub proof fn law_scan_asks(phase: ScanPhaseView, action: ScanAction)
    requires
        asks(phase, action),
    ensures
        phase matches ScanPhaseView::Opening(dir) ==> (action matches ScanAction::OpenDir(p)
            && p.bytes@ == dir),
        phase is Listing ==> action is NextEntry,
        phase matches ScanPhaseView::Checking { path, .. } ==> (action matches ScanAction::Check(p)
            && p.bytes@ == path),
        phase is Done || phase is Failed ==> action is Finish,
{
}

/// A scan takes answers one after the other.
pub proof fn law_scan_runs_on(v: ScanView, inputs: Seq<ScanInputView>, input: ScanInputView)
    ensures
        v.run(Seq::empty()) == v,
        v.run(inputs.push(input)) == v.run(inputs).next(input),
{
    assert(inputs.push(input).drop_last() == inputs);
}

/// A scan takes every answer to what it asked for: of a directory that it is open or not, of an
/// entry its name, that it could not be read or that there is none, and of a path what it is.
pub proof fn law_scan_accepts(v: ScanView, name: Seq<u8>, kind: EntryKind)
    ensures
        v.phase is Opening ==> v.accepts(ScanInputView::Opened) && v.accepts(
            ScanInputView::OpenFailed,
        ),
        v.phase is Listing ==> v.accepts(ScanInputView::Entry(name)) && v.accepts(
            ScanInputView::EntryFailed,
        ) && v.accepts(ScanInputView::NoMoreEntries),
        v.phase is Checking ==> v.accepts(ScanInputView::Is(kind)) && v.accepts(
            ScanInputView::CheckFailed,
        ),
{
}

/// The views of answers to a scan are what these hold.
pub proof fn law_scan_views(input: ScanInput)
    ensures
        input matches ScanInput::Entry(name) ==> input@ == ScanInputView::Entry(name@),
        input matches ScanInput::Is(kind) ==> input@ == ScanInputView::Is(kind),
        input is Opened <==> input@ is Opened,
        input is OpenFailed <==> input@ is OpenFailed,
        input is EntryFailed <==> input@ is EntryFailed,
        input is NoMoreEntries <==> input@ is NoMoreEntries,
        input is CheckFailed <==> input@ is CheckFailed,
{
}

} // verus!
