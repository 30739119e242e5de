//! The git hook that `init` installs: its file name and the shell script it
//! runs, and the file list that `files -` reads from standard input.
use vstd::prelude::*;

use crate::collections::str_views;
use crate::lines::{lines_of, trim_spec, trim_str};
use crate::text::{char_count, concat, concat3, decimal, owned, replace_all_char, replace_char, str_eq, usize_to_string};
use crate::theme::lines_spec;

verus! {

/// The git hook to install.
#[derive(Clone, Copy, Debug, PartialEq, Eq, Structural)]
pub enum HookKind {
    PreCommit,
    PrePush,
}

/// What `init` was asked to install.
pub struct InitOptions {
    pub repo_root: String,
    pub hook: HookKind,
    pub base: String,
    pub blocking: bool,
    pub fail_threshold: Option<usize>,
    pub force: bool,
}

/// What installing a hook did: where the hook was written, and whether it
/// blocks the commit or push.
pub struct InitResult {
    pub hook_path: String,
    pub blocking: bool,
}

impl InitResult {
    /// The result of writing the hook for `options` to `hook_path`.
    pub fn installed(hook_path: String, options: &InitOptions) -> (r: InitResult)
        ensures
            r.hook_path@ == hook_path@,
            r.blocking == options.blocking,
    {
        InitResult { hook_path, blocking: options.blocking }
    }
}

pub open spec fn hook_file_name_spec(hook: HookKind) -> Seq<char> {
    match hook {
        HookKind::PreCommit => "pre-commit"@,
        HookKind::PrePush => "pre-push"@,
    }
}

/// The file name of the hook under git's hooks directory.
pub fn hook_file_name(hook: HookKind) -> (r: String)
    ensures
        r@ == hook_file_name_spec(hook),
{
    match hook {
        HookKind::PreCommit => owned("pre-commit"),
        HookKind::PrePush => owned("pre-push"),
    }
}

/// `value` escaped for use inside a double-quoted shell parameter default.
pub open spec fn shell_default_spec(value: Seq<char>) -> Seq<char> {
    replace_char(
        replace_char(replace_char(replace_char(value, '\\', "\\\\"@), '"', "\\\""@), '$', "\\$"@),
        '`',
        "\\`"@,
    )
}

pub fn shell_parameter_default(value: &str) -> (r: String)
    ensures
        r@ == shell_default_spec(value@),
{
    let a = replace_all_char(value, '\\', "\\\\");
    let b = replace_all_char(a.as_str(), '"', "\\\"");
    let c = replace_all_char(b.as_str(), '$', "\\$");
    replace_all_char(c.as_str(), '`', "\\`")
}

/// The `--fail-threshold` flag, when one was asked for.
pub open spec fn threshold_flag_spec(fail_threshold: Option<usize>) -> Seq<char> {
    match fail_threshold {
        Some(t) => " --fail-threshold "@ + decimal(t as nat),
        None => Seq::empty(),
    }
}

fn threshold_flag(fail_threshold: Option<usize>) -> (r: String)
    ensures
        r@ == threshold_flag_spec(fail_threshold),
{
    match fail_threshold {
        Some(t) => concat(" --fail-threshold ", usize_to_string(t).as_str()),
        None => String::new(),
    }
}

/// A non-blocking hook never fails the git command.
pub open spec fn blocking_mode_spec(command: Seq<char>, blocking: bool) -> Seq<char> {
    if blocking {
        command
    } else {
        command + " || true"@
    }
}

pub fn apply_blocking_mode(command: String, options: &InitOptions) -> (r: String)
    ensures
        r@ == blocking_mode_spec(command@, options.blocking),
{
    if options.blocking {
        command
    } else {
        concat(command.as_str(), " || true")
    }
}

pub open spec fn pre_commit_spec(options: InitOptions) -> Seq<char> {
    let command = blocking_mode_spec(
        "blast-radius --repo-root ."@ + threshold_flag_spec(options.fail_threshold) + " files \"${files[@]}\""@,
        options.blocking,
    );
    "mapfile -t files < <(git diff --cached --name-only --diff-filter=ACMR)\nif [ \"${#files[@]}\" -eq 0 ]; then\n  exit 0\nfi\n\necho \"blast-radius: checking staged files\"\n"@
        + command
}

/// The pre-commit hook's command: the staged files, checked.
pub fn pre_commit_command(options: &InitOptions) -> (r: String)
    ensures
        r@ == pre_commit_spec(*options),
{
    let threshold = threshold_flag(options.fail_threshold);
    let command = apply_blocking_mode(
        concat3("blast-radius --repo-root .", threshold.as_str(), " files \"${files[@]}\""),
        options,
    );
    concat(
        "mapfile -t files < <(git diff --cached --name-only --diff-filter=ACMR)\nif [ \"${#files[@]}\" -eq 0 ]; then\n  exit 0\nfi\n\necho \"blast-radius: checking staged files\"\n",
        command.as_str(),
    )
}

pub open spec fn pre_push_spec(options: InitOptions) -> Seq<char> {
    let command = blocking_mode_spec(
        "blast-radius --repo-root ."@ + threshold_flag_spec(options.fail_threshold) + " diff \"$base\""@,
        options.blocking,
    );
    "base=\"${BLAST_RADIUS_BASE:-"@ + shell_default_spec(options.base@) + "}\"\n\necho \"blast-radius: checking diff $base\"\n"@
        + command
}

/// The pre-push hook's command: the diff against the base, checked; the
/// base can be overridden from the environment.
pub fn pre_push_command(options: &InitOptions) -> (r: String)
    ensures
        r@ == pre_push_spec(*options),
{
    let base = shell_parameter_default(options.base.as_str());
    let threshold = threshold_flag(options.fail_threshold);
    let command = apply_blocking_mode(
        concat3("blast-radius --repo-root .", threshold.as_str(), " diff \"$base\""),
        options,
    );
    let head = concat3("base=\"${BLAST_RADIUS_BASE:-", base.as_str(), "}\"\n\necho \"blast-radius: checking diff $base\"\n");
    concat(head.as_str(), command.as_str())
}

pub open spec fn hook_script_spec(options: InitOptions) -> Seq<char> {
    let command = match options.hook {
        HookKind::PreCommit => pre_commit_spec(options),
        HookKind::PrePush => pre_push_spec(options),
    };
    "#!/usr/bin/env bash\nset -u\n\nif ! command -v blast-radius >/dev/null 2>&1; then\n  echo \"blast-radius: not installed; skipping\"\n  exit 0\nfi\n\n"@
        + command + "\n"@
}

/// The whole hook script: it skips quietly where the tool is not installed.
pub fn hook_script(options: &InitOptions) -> (r: String)
    ensures
        r@ == hook_script_spec(*options),
{
    let command = match options.hook {
        HookKind::PreCommit => pre_commit_command(options),
        HookKind::PrePush => pre_push_command(options),
    };
    concat3(
        "#!/usr/bin/env bash\nset -u\n\nif ! command -v blast-radius >/dev/null 2>&1; then\n  echo \"blast-radius: not installed; skipping\"\n  exit 0\nfi\n\n",
        command.as_str(),
        "\n",
    )
}

/// Whether the file list names standard input (`-`).
pub fn names_stdin(files: &Vec<String>) -> (r: bool)
    ensures
        r == str_views(files@).contains("-"@),
{
    let mut i: usize = 0;
    while i < files.len()
        invariant
            i <= files@.len(),
            forall|j: int| 0 <= j < i ==> files@[j]@ != "-"@,
        decreases files.len() - i,
    {
        if str_eq(files[i].as_str(), "-") {
            proof {
                assert(str_views(files@)[i as int] == "-"@);
            }
            return true;
        }
        i = i + 1;
    }
    proof {
        if str_views(files@).contains("-"@) {
            let j = choose|j: int| 0 <= j < str_views(files@).len() && str_views(files@)[j] == "-"@;
            assert(files@[j]@ == "-"@);
        }
    }
    false
}

/// The non-blank lines of `lines`, trimmed.
pub open spec fn keep_nonblank(lines: Seq<Seq<char>>) -> Seq<Seq<char>>
    decreases lines.len(),
{
    if lines.len() == 0 {
        Seq::empty()
    } else {
        let t = trim_spec(lines.last());
        keep_nonblank(lines.drop_last()) + (if t.len() > 0 { seq![t] } else { Seq::empty() })
    }
}

/// The files a list on standard input names: its non-blank lines, trimmed.
pub open spec fn listed_files(text: Seq<char>) -> Seq<Seq<char>> {
    keep_nonblank(lines_spec(text))
}

/// `files` with every `-` replaced by the files listed on standard input.
pub open spec fn expanded_files(files: Seq<Seq<char>>, listed: Seq<Seq<char>>) -> Seq<Seq<char>>
    decreases files.len(),
{
    if files.len() == 0 {
        Seq::empty()
    } else {
        expanded_files(files.drop_last(), listed) + (if files.last() == "-"@ { listed } else { seq![files.last()] })
    }
}

fn nonblank_lines(text: &str) -> (r: Vec<String>)
    ensures
        str_views(r@) == listed_files(text@),
{
    let lines = lines_of(text);
    let ghost ls = lines_spec(text@);
    let mut out: Vec<String> = Vec::new();
    let mut i: usize = 0;
    while i < lines.len()
        invariant
            i <= lines@.len(),
            str_views(lines@) == ls,
            str_views(out@) == keep_nonblank(ls.take(i as int)),
        decreases lines.len() - i,
    {
        let t = trim_str(lines[i].as_str());
        let ghost before = str_views(out@);
        proof {
            assert(ls[i as int] == lines@[i as int]@);
            assert(ls.take(i + 1).drop_last() =~= ls.take(i as int));
            assert(ls.take(i + 1).last() == ls[i as int]);
        }
        if char_count(t.as_str()) > 0 {
            out.push(t);
            proof {
                assert(str_views(out@) =~= before + seq![t@]);
            }
        } else {
            proof {
                assert(before + Seq::<Seq<char>>::empty() =~= before);
            }
        }
        i = i + 1;
    }
    proof {
        assert(ls.take(lines@.len() as int) =~= ls);
    }
    out
}

/// Expands `-` in a file list into the files that standard input listed:
/// an error where nothing is left.
pub fn expand_file_list(files: &Vec<String>, stdin_text: &str) -> (r: Result<Vec<String>, String>)
    ensures
        r matches Ok(v) ==> str_views(v@) == expanded_files(str_views(files@), listed_files(stdin_text@)) && v@.len() > 0,
        r matches Err(e) ==> e@ == "no files provided: stdin file list was empty"@ && expanded_files(
            str_views(files@),
            listed_files(stdin_text@),
        ).len() == 0,
{
    let listed = nonblank_lines(stdin_text);
    let ghost lv = str_views(listed@);
    let ghost fv = str_views(files@);
    let mut out: Vec<String> = Vec::new();
    let mut i: usize = 0;
    while i < files.len()
        invariant
            i <= files@.len(),
            fv == str_views(files@),
            lv == str_views(listed@),
            str_views(out@) == expanded_files(fv.take(i as int), lv),
        decreases files.len() - i,
    {
        let ghost before = str_views(out@);
        proof {
            assert(fv.take(i + 1).drop_last() =~= fv.take(i as int));
            assert(fv.take(i + 1).last() == files@[i as int]@);
        }
        if str_eq(files[i].as_str(), "-") {
            let mut k: usize = 0;
            while k < listed.len()
                invariant
                    k <= listed@.len(),
                    lv == str_views(listed@),
                    str_views(out@) == before + lv.take(k as int),
                decreases listed.len() - k,
            {
                let item = listed[k].clone();
                let ghost o = str_views(out@);
                out.push(item);
                proof {
                    assert(lv[k as int] == listed@[k as int]@);
                    assert(str_views(out@) =~= o.push(lv[k as int]));
                    assert(lv.take(k + 1) =~= lv.take(k as int).push(lv[k as int]));
                }
                k = k + 1;
            }
            proof {
                assert(lv.take(listed@.len() as int) =~= lv);
            }
        } else {
            out.push(files[i].clone());
            proof {
                assert(str_views(out@) =~= before + seq![files@[i as int]@]);
            }
        }
        i = i + 1;
    }
    proof {
        assert(fv.take(files@.len() as int) =~= fv);
    }
    if out.len() == 0 {
        return Err(owned("no files provided: stdin file list was empty"));
    }
    Ok(out)
}

/// A file list that does not name standard input is left as it is.
pub proof fn lemma_no_dash_unchanged(files: Seq<Seq<char>>, listed: Seq<Seq<char>>)
    requires
        !files.contains("-"@),
    ensures
        expanded_files(files, listed) == files,
    decreases files.len(),
{
    if files.len() > 0 {
        assert(files.drop_last().len() < files.len());
        assert forall|i: int| 0 <= i < files.drop_last().len() implies files.drop_last()[i] != "-"@ by {
            assert(files.drop_last()[i] == files[i]);
        }
        lemma_no_dash_unchanged(files.drop_last(), listed);
        assert(files.last() != "-"@) by {
            assert(files[files.len() - 1] == files.last());
        }
        assert(files.drop_last() + seq![files.last()] =~= files);
    }
}

} // verus!
