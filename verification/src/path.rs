//! File paths, as the bytes that the system spells them with.
use vstd::prelude::*;
use vstd::utf8::{decode_utf8, valid_utf8};

use crate::text::{utf8_lossy, utf8_lossy_text};

verus! {

/// A file path: the bytes of its name, with `/` between the parts.
#[derive(Debug, PartialEq, Eq)]
pub struct FilePath {
    pub bytes: Vec<u8>,
}

impl View for FilePath {
    type V = Seq<u8>;

    open spec fn view(&self) -> Seq<u8> {
        self.bytes@
    }
}

/// The views of paths in a row.
pub open spec fn path_views(v: Seq<FilePath>) -> Seq<Seq<u8>> {
    v.map_values(|p: FilePath| p@)
}

/// A copy of some bytes.
pub fn copy_bytes(v: &Vec<u8>) -> (r: Vec<u8>)
    ensures
        r@ == v@,
{
    let r = v.clone();
    assert(r@ == v@);
    r
}

impl Clone for FilePath {
    fn clone(&self) -> (p: FilePath)
        ensures
            p@ == self@,
    {
        FilePath { bytes: copy_bytes(&self.bytes) }
    }
}

/// Copies of paths in a row.
pub fn clone_paths(v: &Vec<FilePath>) -> (r: Vec<FilePath>)
    ensures
        path_views(r@) == path_views(v@),
{
    let mut r: Vec<FilePath> = Vec::new();
    let mut i: usize = 0;
    while i < v.len()
        invariant
            i <= v@.len(),
            path_views(r@) == path_views(v@).take(i as int),
        decreases v@.len() - i,
    {
        let ghost before = path_views(r@);
        r.push(v[i].clone());
        assert(path_views(r@) == before.push(v@[i as int]@));
        i = i + 1;
    }
    assert(path_views(v@).take(i as int) == path_views(v@));
    r
}

impl FilePath {
    /// The path that a text spells.
    pub fn from_text(s: &str) -> (p: FilePath)
        ensures
            p@ == vstd::utf8::encode_utf8(s@),
    {
        FilePath { bytes: s.as_bytes_vec() }
    }

    /// The path as it is shown: its bytes as text, with U+FFFD for what is not UTF-8.
    pub fn display(&self) -> (s: String)
        ensures
            s@ == utf8_lossy_text(self@),
            valid_utf8(self@) ==> s@ == decode_utf8(self@),
    {
        utf8_lossy(&self.bytes)
    }

    /// Whether the path starts at the root.
    pub fn is_absolute(&self) -> (b: bool)
        ensures
            b == absolute(self@),
    {
        self.bytes.len() > 0 && self.bytes[0] == 0x2f
    }

    /// The path of a name in the directory.
    pub fn join(&self, name: &Vec<u8>) -> (p: FilePath)
        ensures
            p@ == joined_path(self@, name@),
    {
        let mut bytes = copy_bytes(&self.bytes);
        if bytes.len() > 0 && bytes[bytes.len() - 1] != 0x2f {
            bytes.push(0x2f);
        }
        let mut more = copy_bytes(name);
        bytes.append(&mut more);
        FilePath { bytes }
    }

    /// How many components the path has.
    pub fn component_count(&self) -> (n: usize)
        ensures
            n == components(self@, true),
    {
        let v = &self.bytes;
        let mut n: usize = 0;
        let mut start: usize = 0;
        let mut i: usize = 0;
        let mut first: bool = true;
        assert(v@.skip(0) == v@);
        while i < v.len()
            invariant
                v == self.bytes,
                start <= i <= v@.len(),
                n <= start,
                forall|k: int| start <= k < i ==> v@[k] != 0x2f,
                components(v@, true) == n + components(v@.skip(start as int), first),
            decreases v@.len() - i,
        {
            if v[i] == 0x2f {
                let ghost rest = v@.skip(start as int);
                proof {
                    lemma_part_len(rest, i - start);
                    assert(rest.take(i - start) == v@.subrange(start as int, i as int));
                    assert(rest.skip(i - start + 1) == v@.skip(i + 1));
                }
                if first || (i > start && !(i == start + 1 && v[start] == 0x2e)) {
                    proof {
                        if i > start {
                            assert(v@.subrange(start as int, i as int)[0] == v@[start as int]);
                        }
                        assert(v@.subrange(start as int, i as int) == seq![0x2eu8] ==> i == start
                            + 1);
                    }
                    n = n + 1;
                } else {
                    assert(i > start ==> v@.subrange(start as int, i as int) == seq![0x2eu8]);
                }
                start = i + 1;
                first = false;
            }
            i = i + 1;
        }
        proof {
            let rest = v@.skip(start as int);
            lemma_part_len(rest, rest.len() as int);
            assert(rest.take(rest.len() as int) == rest);
        }
        if i > start && (first || !(i == start + 1 && v[start] == 0x2e)) {
            proof {
                assert(v@.skip(start as int)[0] == v@[start as int]);
            }
            n = n + 1;
        } else {
            assert(i > start ==> v@.skip(start as int) == seq![0x2eu8]);
        }
        n
    }
}

/// The path starts at the root.
pub open spec fn absolute(p: Seq<u8>) -> bool {
    p.len() > 0 && p[0] == 0x2f
}

/// The path of a name in a directory: one `/` between the two.
pub open spec fn joined_path(dir: Seq<u8>, name: Seq<u8>) -> Seq<u8> {
    if dir.len() > 0 && dir.last() != 0x2f {
        dir.push(0x2f) + name
    } else {
        dir + name
    }
}

/// How many bytes stand before the first `/`, or in all where there is none.
pub open spec fn part_len(p: Seq<u8>) -> nat
    decreases p.len(),
{
    if p.len() == 0 || p[0] == 0x2f {
        0
    } else {
        1 + part_len(p.skip(1))
    }
}

/// `part_len` is the one length that reaches a `/` or the end with no `/` before.
pub proof fn lemma_part_len(p: Seq<u8>, k: int)
    requires
        0 <= k <= p.len(),
        forall|i: int| 0 <= i < k ==> p[i] != 0x2f,
        k == p.len() || p[k] == 0x2f,
    ensures
        part_len(p) == k,
    decreases k,
{
    if k > 0 {
        assert(p[0] != 0x2f);
        assert forall|i: int| 0 <= i < k - 1 implies p.skip(1)[i] != 0x2f by {
            assert(p.skip(1)[i] == p[i + 1]);
        }
        lemma_part_len(p.skip(1), k - 1);
    }
}

/// The first part of a path counts as a component: an empty one before a slash is the root. Any
/// other part between slashes counts unless it is empty or `.`.
pub open spec fn counted(part: Seq<u8>, first: bool) -> bool {
    first || (part.len() > 0 && part != seq![0x2eu8])
}

/// How many components a path has; `first` tells whether it is a whole path or the rest of one.
pub open spec fn components(p: Seq<u8>, first: bool) -> nat
    decreases p.len(),
{
    let here: nat = if counted(p.take(part_len(p) as int), first) {
        1
    } else {
        0
    };
    if p.len() == 0 {
        0
    } else if part_len(p) >= p.len() {
        here
    } else {
        here + components(p.skip(part_len(p) as int + 1), false)
    }
}

/// A byte's place in the order of paths: `/` comes before every other byte, so that a
/// directory's files stand together.
pub open spec fn path_key(b: u8) -> int {
    if b == 0x2f {
        0
    } else {
        b + 1
    }
}

/// The order of paths: part by part, and bytewise within a part.
pub open spec fn path_le(a: Seq<u8>, b: Seq<u8>) -> bool
    decreases a.len(),
{
    if a.len() == 0 {
        true
    } else if b.len() == 0 {
        false
    } else if path_key(a[0]) != path_key(b[0]) {
        path_key(a[0]) < path_key(b[0])
    } else {
        path_le(a.skip(1), b.skip(1))
    }
}

/// Of two paths one comes first.
pub proof fn law_path_order_total(a: Seq<u8>, b: Seq<u8>)
    ensures
        path_le(a, b) || path_le(b, a),
    decreases a.len(),
{
    if a.len() > 0 && b.len() > 0 {
        law_path_order_total(a.skip(1), b.skip(1));
    }
}

/// The order of paths is transitive.
pub proof fn law_path_order_transitive(a: Seq<u8>, b: Seq<u8>, c: Seq<u8>)
    requires
        path_le(a, b),
        path_le(b, c),
    ensures
        path_le(a, c),
    decreases a.len(),
{
    if a.len() > 0 && path_key(a[0]) == path_key(b[0]) && path_key(b[0]) == path_key(c[0]) {
        law_path_order_transitive(a.skip(1), b.skip(1), c.skip(1));
    }
}

/// Two paths that stand in both orders are one path.
pub proof fn law_path_order_antisymmetric(a: Seq<u8>, b: Seq<u8>)
    requires
        path_le(a, b),
        path_le(b, a),
    ensures
        a == b,
    decreases a.len(),
{
    if a.len() > 0 && b.len() > 0 {
        law_path_order_antisymmetric(a.skip(1), b.skip(1));
        assert(a == seq![a[0]] + a.skip(1));
        assert(b == seq![b[0]] + b.skip(1));
    } else {
        assert(a == b);
    }
}

/// Whether a path comes no later than another.
pub fn comes_first(a: &FilePath, b: &FilePath) -> (r: bool)
    ensures
        r == path_le(a@, b@),
{
    let mut i: usize = 0;
    assert(a@.skip(0) == a@);
    assert(b@.skip(0) == b@);
    while i < a.bytes.len() && i < b.bytes.len()
        invariant
            i <= a@.len(),
            i <= b@.len(),
            path_le(a@, b@) == path_le(a@.skip(i as int), b@.skip(i as int)),
        decreases a@.len() - i,
    {
        let x: u16 = if a.bytes[i] == 0x2f {
            0
        } else {
            a.bytes[i] as u16 + 1
        };
        let y: u16 = if b.bytes[i] == 0x2f {
            0
        } else {
            b.bytes[i] as u16 + 1
        };
        if x != y {
            return x < y;
        }
        assert(a@.skip(i as int).skip(1) == a@.skip(i + 1));
        assert(b@.skip(i as int).skip(1) == b@.skip(i + 1));
        i = i + 1;
    }
    i >= a.bytes.len()
}

} // verus!
