//! What holds of the commands that are run, and of what is made of their outcomes.
use vstd::prelude::*;
use vstd::utf8::{decode_utf8_encode_utf8, encode_utf8, valid_utf8};

use crate::path::{absolute, components, lemma_part_len, part_len};
use crate::sed::{
    apply_args, apply_failure, arg_views, failure, filter_args, filter_result, in_place_switch,
    spawn_failure, SedExit, SedExitView,
};
use crate::text::{decimal, trimmed, utf8_lossy_text};

verus! {

/// An apply hands sed the in-place switch with the suffix behind it, the expression, and then
/// every file in its place, and nothing else.
pub proof fn law_apply_arguments(
    expression: Seq<char>,
    files: Seq<Seq<u8>>,
    suffix: Option<Seq<char>>,
)
    ensures
        ({
            let args = apply_args(expression, files, suffix);
            &&& args.len() == 4 + files.len()
            &&& suffix is None ==> args[0] == encode_utf8("-i"@)
            &&& suffix matches Some(s) ==> args[0] == encode_utf8("-i"@ + s)
            &&& args[1] == encode_utf8("-e"@)
            &&& args[2] == encode_utf8(expression)
            &&& args[3] == encode_utf8("--"@)
            &&& forall|k: int| 0 <= k < files.len() ==> args[4 + k] == #[trigger] files[k]
        }),
{
}

/// A preview hands sed the expression and nothing else.
pub proof fn law_filter_arguments(expression: Seq<char>)
    ensures
        filter_args(expression).len() == 2,
        filter_args(expression)[0] == encode_utf8("-e"@),
        filter_args(expression)[1] == encode_utf8(expression),
{
}

/// The switch is `-i` with the suffix behind it.
pub proof fn law_switch(suffix: Option<Seq<char>>)
    ensures
        suffix is None ==> in_place_switch(suffix) == "-i"@,
        suffix matches Some(s) ==> in_place_switch(suffix) == "-i"@ + s,
{
}

/// The exit code as a failure tells it: -1 where there is none.
pub open spec fn code_text(code: Option<i32>) -> Seq<char> {
    decimal(
        if code is Some {
            code->Some_0 as int
        } else {
            -1
        },
    )
}

/// A filter run that ends well gives the text that its output encodes, all of it. One that does
/// not is told by its code and its error output, and one whose output is no text by that.
pub proof fn law_filter_outcome(exit: SedExitView)
    ensures
        filter_result(exit) is Ok <==> exit.success && valid_utf8(exit.stdout),
        filter_result(exit) matches Ok(s) ==> encode_utf8(s) == exit.stdout,
        !exit.success ==> filter_result(exit) == Err::<Seq<char>, Seq<char>>(
            "sed exited "@ + code_text(exit.code) + ": "@ + trimmed(utf8_lossy_text(exit.stderr)),
        ),
        exit.success && !valid_utf8(exit.stdout) ==> filter_result(exit) == Err::<
            Seq<char>,
            Seq<char>,
        >("sed stdout was not valid UTF-8"@),
{
    if valid_utf8(exit.stdout) {
        decode_utf8_encode_utf8(exit.stdout);
    }
}

/// An apply has failed where sed says so, and only there; it is told by its code and its error
/// output.
pub proof fn law_apply_outcome(exit: SedExitView)
    ensures
        exit.success <==> apply_failure(exit) is None,
        !exit.success ==> apply_failure(exit) == Some(
            "sed apply failed ("@ + code_text(exit.code) + "): "@ + trimmed(
                utf8_lossy_text(exit.stderr),
            ),
        ),
{
}

/// A sed that does not start is told by its path.
pub proof fn law_spawn_failure(sed_bin: Seq<u8>)
    ensures
        spawn_failure(sed_bin) == "failed to spawn "@ + utf8_lossy_text(sed_bin),
{
}

/// The views of an outcome and of arguments are what these hold.
pub proof fn law_sed_views(exit: SedExit, args: Seq<Vec<u8>>)
    ensures
        exit@.success == exit.success,
        exit@.code == exit.code,
        exit@.stdout == exit.stdout@,
        exit@.stderr == exit.stderr@,
        arg_views(args).len() == args.len(),
        forall|i: int| 0 <= i < args.len() ==> #[trigger] arg_views(args)[i] == args[i]@,
{
}

proof fn lemma_part_len_reaches(p: Seq<u8>)
    ensures
        part_len(p) <= p.len(),
        forall|i: int| 0 <= i < part_len(p) ==> p[i] != 0x2f,
        part_len(p) < p.len() ==> p[part_len(p) as int] == 0x2f,
    decreases p.len(),
{
    if p.len() > 0 && p[0] != 0x2f {
        let rest = p.skip(1);
        lemma_part_len_reaches(rest);
        assert forall|i: int| 0 <= i < part_len(p) implies p[i] != 0x2f by {
            if i > 0 {
                assert(rest[i - 1] == p[i]);
            }
        }
        if part_len(p) < p.len() {
            assert(rest[part_len(rest) as int] == p[part_len(p) as int]);
        }
    }
}

proof fn lemma_last_part(x: Seq<u8>, y: Seq<u8>, first: bool)
    requires
        forall|i: int| 0 <= i < y.len() ==> y[i] != 0x2f,
    ensures
        components(x + seq![0x2fu8] + y, first) == (if x.len() > 0 {
            components(x, first) as int
        } else if first {
            1int
        } else {
            0int
        }) + (if y.len() > 0 && y != seq![0x2eu8] {
            1int
        } else {
            0int
        }),
    decreases x.len(),
{
    let p = x + seq![0x2fu8] + y;
    lemma_part_len(y, y.len() as int);
    assert(y.take(y.len() as int) == y);
    lemma_part_len_reaches(x);
    let k = part_len(x) as int;
    assert forall|i: int| 0 <= i < k implies p[i] != 0x2f by {
        assert(p[i] == x[i]);
    }
    assert(p[k] == 0x2f);
    lemma_part_len(p, k);
    assert(p.take(k) == x.take(k));
    if k >= x.len() {
        assert(p.skip(k + 1) == y);
        assert(x.take(k) == x);
        assert(components(y, false) == if y.len() > 0 && y != seq![0x2eu8] {
            1int
        } else {
            0int
        });
    } else {
        let rest = x.skip(k + 1);
        assert(rest.len() == 0 ==> components(rest, false) == 0);
        assert(p.skip(k + 1) == rest + seq![0x2fu8] + y);
        lemma_last_part(rest, y, false);
    }
}

/// How the components of a path are counted: a name without slashes is one, one more part is one
/// more, unless it is empty or `.`; before a slash at the start stands the root. So a bare name
/// is searched for, and a path with a directory in it is used as it is.
pub proof fn law_components(x: Seq<u8>, y: Seq<u8>)
    requires
        forall|i: int| 0 <= i < y.len() ==> y[i] != 0x2f,
    ensures
        components(y, true) == if y.len() > 0 {
            1int
        } else {
            0int
        },
        x.len() > 0 && y.len() > 0 && y != seq![0x2eu8] ==> components(
            x + seq![0x2fu8] + y,
            true,
        ) == components(x, true) + 1,
        x.len() > 0 && (y.len() == 0 || y == seq![0x2eu8]) ==> components(
            x + seq![0x2fu8] + y,
            true,
        ) == components(x, true),
        components(seq![0x2fu8] + y, true) == if y.len() > 0 && y != seq![0x2eu8] {
            2int
        } else {
            1int
        },
        absolute(x) <==> x.len() > 0 && x[0] == 0x2f,
{
    lemma_part_len(y, y.len() as int);
    assert(y.take(y.len() as int) == y);
    lemma_last_part(x, y, true);
    lemma_last_part(Seq::empty(), y, true);
    assert(Seq::<u8>::empty() + seq![0x2fu8] + y == seq![0x2fu8] + y);
}

/// A failure is told by the code between two texts, and by the error output without the blanks
/// around it.
pub proof fn law_failure_text(
    before: Seq<char>,
    code: Option<i32>,
    between: Seq<char>,
    stderr: Seq<char>,
)
    ensures
        failure(before, code, between, stderr) == before + code_text(code) + between + trimmed(
            stderr,
        ),
{
}

} // verus!
