//! The sed commands that are run, and what their outcomes mean.
use vstd::prelude::*;
use vstd::utf8::{decode_utf8, encode_utf8, valid_utf8};

use crate::path::{copy_bytes, path_views, FilePath};
use crate::text::{
    blank, decimal, is_blank, opt_text, push_decimal_signed, text, trim, trimmed, utf8_lossy,
    utf8_lossy_text, utf8_strict,
};

verus! {

/// How a run of sed ended.
#[derive(Debug)]
pub struct SedExit {
    pub success: bool,
    /// The exit code; a run that a signal ended has none.
    pub code: Option<i32>,
    pub stdout: Vec<u8>,
    pub stderr: Vec<u8>,
}

/// The model of [`SedExit`].
#[verifier::ext_equal]
pub struct SedExitView {
    pub success: bool,
    pub code: Option<i32>,
    pub stdout: Seq<u8>,
    pub stderr: Seq<u8>,
}

impl View for SedExit {
    type V = SedExitView;

    open spec fn view(&self) -> SedExitView {
        SedExitView {
            success: self.success,
            code: self.code,
            stdout: self.stdout@,
            stderr: self.stderr@,
        }
    }
}

/// The views of arguments in a row.
pub open spec fn arg_views(v: Seq<Vec<u8>>) -> Seq<Seq<u8>> {
    v.map_values(|a: Vec<u8>| a@)
}

/// The arguments that make sed filter its input.
pub open spec fn filter_args(expression: Seq<char>) -> Seq<Seq<u8>> {
    seq![encode_utf8("-e"@), encode_utf8(expression)]
}

/// The switch that makes sed edit in place, with the backup suffix where there is one.
pub open spec fn in_place_switch(backup_suffix: Option<Seq<char>>) -> Seq<char> {
    match backup_suffix {
        Some(suffix) => "-i"@ + suffix,
        None => "-i"@,
    }
}

/// The arguments that make sed edit the files in place.
pub open spec fn apply_args(
    expression: Seq<char>,
    files: Seq<Seq<u8>>,
    backup_suffix: Option<Seq<char>>,
) -> Seq<Seq<u8>> {
    seq![
        encode_utf8(in_place_switch(backup_suffix)),
        encode_utf8("-e"@),
        encode_utf8(expression),
        encode_utf8("--"@),
    ] + files
}

/// An empty backup suffix applies just as no suffix does.
pub proof fn law_empty_suffix_is_no_backup(expression: Seq<char>, files: Seq<Seq<u8>>)
    ensures
        apply_args(expression, files, Some(seq![])) == apply_args(expression, files, None),
{
    assert("-i"@ + Seq::<char>::empty() == "-i"@);
}

fn push_arg(v: &mut Vec<Vec<u8>>, a: Vec<u8>)
    ensures
        arg_views(final(v)@) == arg_views(old(v)@).push(a@),
{
    v.push(a);
    assert(arg_views(v@) == arg_views(old(v)@).push(a@));
}

/// The arguments that make sed filter its input.
pub fn stdin_args(expression: &str) -> (args: Vec<Vec<u8>>)
    ensures
        arg_views(args@) == filter_args(expression@),
{
    let mut args: Vec<Vec<u8>> = Vec::new();
    push_arg(&mut args, "-e".as_bytes_vec());
    push_arg(&mut args, expression.as_bytes_vec());
    args
}

/// The in-place switch.
pub fn switch_text(backup_suffix: &Option<String>) -> (s: String)
    ensures
        s@ == in_place_switch(opt_text(*backup_suffix)),
{
    let mut s = text("-i");
    if let Some(suffix) = backup_suffix {
        s.append(suffix.as_str());
    }
    s
}

/// The arguments that apply an expression to files in place, or why nothing is applied: the
/// expression is empty, or there are no files.
pub fn run_apply(
    expression: &str,
    files: &Vec<FilePath>,
    backup_suffix: &Option<String>,
) -> (r: Result<Vec<Vec<u8>>, String>)
    ensures
        r is Ok <==> !blank(expression@) && files@.len() > 0,
        r matches Ok(args) ==> arg_views(args@) == apply_args(
            expression@,
            path_views(files@),
            opt_text(*backup_suffix),
        ),
        r matches Ok(args) ==> {
            &&& args@.len() == 4 + files@.len()
            &&& args@[1]@ == encode_utf8("-e"@)
            &&& args@[2]@ == encode_utf8(expression@)
            &&& args@[3]@ == encode_utf8("--"@)
            &&& forall|k: int| 0 <= k < files@.len() ==> args@[4 + k]@ == (#[trigger] files@[k])@
        },
        r matches Err(e) ==> e@ == if blank(expression@) {
            "empty sed expression"@
        } else {
            "no files to apply"@
        },
{
    if is_blank(expression) {
        return Err(text("empty sed expression"));
    }
    if files.len() == 0 {
        return Err(text("no files to apply"));
    }
    let mut args: Vec<Vec<u8>> = Vec::new();
    push_arg(&mut args, switch_text(backup_suffix).as_str().as_bytes_vec());
    push_arg(&mut args, "-e".as_bytes_vec());
    push_arg(&mut args, expression.as_bytes_vec());
    push_arg(&mut args, "--".as_bytes_vec());
    let ghost head = arg_views(args@);
    let mut i: usize = 0;
    while i < files.len()
        invariant
            i <= files@.len(),
            arg_views(args@) == head + path_views(files@).take(i as int),
        decreases files@.len() - i,
    {
        push_arg(&mut args, copy_bytes(&files[i].bytes));
        i = i + 1;
    }
    assert(path_views(files@).take(i as int) == path_views(files@));
    proof {
        let views = arg_views(args@);
        assert(views == head + path_views(files@));
        assert(views[1] == args@[1]@ && views[2] == args@[2]@ && views[3] == args@[3]@);
        assert forall|k: int| 0 <= k < files@.len() implies args@[4 + k]@ == (
        #[trigger] files@[k])@ by {
            assert(views[4 + k] == args@[4 + k]@);
            assert(path_views(files@)[k] == files@[k]@);
        }
    }
    Ok(args)
}

/// The exit code as it is told, `-1` where there is none.
pub open spec fn told_code(code: Option<i32>) -> int {
    match code {
        Some(c) => c as int,
        None => -1,
    }
}

/// `before`, the exit code, `between` and the trimmed error output.
pub open spec fn failure(
    before: Seq<char>,
    code: Option<i32>,
    between: Seq<char>,
    stderr: Seq<char>,
) -> Seq<char> {
    before + decimal(told_code(code)) + between + trimmed(stderr)
}

/// `before`, the exit code, `between` and the trimmed error output.
pub fn failure_text(before: &str, code: Option<i32>, between: &str, stderr: &str) -> (e: String)
    ensures
        e@ == failure(before@, code, between@, stderr@),
{
    let mut e = text(before);
    let c: i32 = match code {
        Some(c) => c,
        None => -1,
    };
    push_decimal_signed(&mut e, c);
    e.append(between);
    e.append(trim(stderr).as_str());
    e
}

/// What a run of sed as a filter gives: its output, or what went wrong.
pub open spec fn filter_result(exit: SedExitView) -> Result<Seq<char>, Seq<char>> {
    if !exit.success {
        Err(failure("sed exited "@, exit.code, ": "@, utf8_lossy_text(exit.stderr)))
    } else if valid_utf8(exit.stdout) {
        Ok(decode_utf8(exit.stdout))
    } else {
        Err("sed stdout was not valid UTF-8"@)
    }
}

/// The output of a run of sed as a filter, or what went wrong.
pub fn filter_output(exit: SedExit) -> (r: Result<String, String>)
    ensures
        r matches Ok(s) ==> filter_result(exit@) == Ok::<Seq<char>, Seq<char>>(s@),
        r matches Err(e) ==> filter_result(exit@) == Err::<Seq<char>, Seq<char>>(e@),
{
    if !exit.success {
        let stderr = utf8_lossy(&exit.stderr);
        return Err(failure_text("sed exited ", exit.code, ": ", stderr.as_str()));
    }
    match utf8_strict(exit.stdout) {
        Some(s) => Ok(s),
        None => Err(text("sed stdout was not valid UTF-8")),
    }
}

/// What went wrong when sed edited files in place, if anything did.
pub open spec fn apply_failure(exit: SedExitView) -> Option<Seq<char>> {
    if exit.success {
        None
    } else {
        Some(failure("sed apply failed ("@, exit.code, "): "@, utf8_lossy_text(exit.stderr)))
    }
}

/// What went wrong when sed edited files in place, if anything did.
pub fn apply_error(exit: &SedExit) -> (e: Option<String>)
    ensures
        opt_text(e) == apply_failure(exit@),
{
    if exit.success {
        return None;
    }
    let stderr = utf8_lossy(&exit.stderr);
    Some(failure_text("sed apply failed (", exit.code, "): ", stderr.as_str()))
}

/// What is told when sed cannot be started.
pub open spec fn spawn_failure(sed_bin: Seq<u8>) -> Seq<char> {
    "failed to spawn "@ + utf8_lossy_text(sed_bin)
}

/// What is told when sed cannot be started.
pub fn spawn_error(sed_bin: &FilePath) -> (e: String)
    ensures
        e@ == spawn_failure(sed_bin@),
{
    let mut e = text("failed to spawn ");
    e.append(sed_bin.display().as_str());
    e
}

/// Where the sed binary is: at the path given, or to be searched for by its name.
#[derive(Debug)]
pub enum SedBin {
    At(FilePath),
    Search(FilePath),
}

/// Whether a path to sed is used as it is. A path of a single component that does not start at
/// the root is a name to search for.
pub fn resolve_sed_bin(path: FilePath) -> (r: SedBin)
    ensures
        r == if crate::path::absolute(path@) || crate::path::components(path@, true) > 1 {
            SedBin::At(path)
        } else {
            SedBin::Search(path)
        },
{
    if path.is_absolute() || path.component_count() > 1 {
        SedBin::At(path)
    } else {
        SedBin::Search(path)
    }
}

/// What is told when the search for sed finds nothing.
pub fn sed_not_found(path: &FilePath) -> (e: String)
    ensures
        e@ == "sed binary not found: "@ + utf8_lossy_text(path@),
{
    let mut e = text("sed binary not found: ");
    e.append(path.display().as_str());
    e
}

} // verus!
