//! Inline shell commands typed as `!cmd` or `!!cmd`.
use vstd::prelude::*;
use crate::text::{chars_of, push_range, push_str, string_of, trim_seq, trim_end_seq, trimmed, skip_ws_start, count_ws_end, lemma_trailing_ws};
use crate::width::strings_view;
use crate::text::{ascii_lower_seq, ascii_lowercase_chars};
use crate::goal::chars_eq;

verus! {

#[derive(Clone, Copy, Debug, PartialEq, Eq)]
pub enum InlineShellMode {
    IncludeInContext,
    ExcludeFromContext,
}

/// How `input` asks for a shell command: `!!cmd` keeps the output out of
/// the model's context, `!cmd` puts it in; the command is trimmed.
pub open spec fn parse_shell(input: Seq<char>) -> Option<(InlineShellMode, Seq<char>)> {
    if input.len() >= 2 && input[0] == '!' && input[1] == '!' {
        Some((InlineShellMode::ExcludeFromContext, trim_seq(input.skip(2))))
    } else if input.len() >= 1 && input[0] == '!' {
        Some((InlineShellMode::IncludeInContext, trim_seq(input.skip(1))))
    } else {
        None
    }
}

impl InlineShellMode {
    /// The mode and trimmed command of an inline shell input.
    pub fn parse(input: &str) -> (r: Option<(InlineShellMode, String)>)
        ensures
            r matches Some(p) ==> parse_shell(input@) == Some((p.0, p.1@)),
            r is None ==> parse_shell(input@) is None,
    {
        let v = chars_of(input);
        let skip: usize = if v.len() >= 2 && v[0] == '!' && v[1] == '!' {
            2
        } else if v.len() >= 1 && v[0] == '!' {
            1
        } else {
            return None;
        };
        let rest = crate::text::string_of_range(&v, skip, v.len());
        assert(v@.subrange(skip as int, v@.len() as int) =~= v@.skip(skip as int));
        let t = trimmed(rest.as_str());
        let command = string_of(&t);
        let mode = if skip == 2 {
            InlineShellMode::ExcludeFromContext
        } else {
            InlineShellMode::IncludeInContext
        };
        Some((mode, command))
    }

    pub fn included_in_context(self) -> (b: bool)
        ensures
            b == (self == InlineShellMode::IncludeInContext),
    {
        match self {
            InlineShellMode::IncludeInContext => true,
            InlineShellMode::ExcludeFromContext => false,
        }
    }
}

/// The inline shell mode `input` asks for, if any.
pub fn mode(input: &str) -> (m: Option<InlineShellMode>)
    ensures
        m == (match parse_shell(input@) {
            Some(p) => Some(p.0),
            None => None,
        }),
{
    match InlineShellMode::parse(input) {
        Some((mode, _)) => Some(mode),
        None => None,
    }
}

/// What a shell command produced.
#[derive(Clone, Debug, PartialEq, Eq)]
pub struct ShellOutput {
    pub shell: String,
    pub command: String,
    pub stdout: String,
    pub stderr: String,
    pub exit_code: String,
    pub ok: bool,
}

pub open spec fn context_text_of(o: ShellOutput) -> Seq<char> {
    "Inline shell command executed with "@ + o.shell@ + ":\n```shell\n"@ + o.command@
        + "\n```\nstdout:\n```text\n"@ + o.stdout@ + "\n```\nstderr:\n```text\n"@ + o.stderr@
        + "\n```\nexit code: "@ + o.exit_code@
}

/// The text that hands a shell command's output to the model.
pub fn context_text(output: &ShellOutput) -> (r: String)
    ensures
        r@ == context_text_of(*output),
{
    let mut r = String::new();
    push_str(&mut r, "Inline shell command executed with ");
    push_str(&mut r, output.shell.as_str());
    push_str(&mut r, ":\n```shell\n");
    push_str(&mut r, output.command.as_str());
    push_str(&mut r, "\n```\nstdout:\n```text\n");
    push_str(&mut r, output.stdout.as_str());
    push_str(&mut r, "\n```\nstderr:\n```text\n");
    push_str(&mut r, output.stderr.as_str());
    push_str(&mut r, "\n```\nexit code: ");
    push_str(&mut r, output.exit_code.as_str());
    r
}

/// `s` without trailing white space (`str::trim_end`).
fn trim_end_string(s: &str) -> (r: String)
    ensures
        r@ == trim_end_seq(s@),
{
    let v = chars_of(s);
    let n = count_ws_end(&v);
    proof {
        lemma_trailing_ws(v@);
    }
    crate::text::string_of_range(&v, 0, v.len() - n)
}

/// The lines a shell command's transcript entry shows.
pub open spec fn shell_display_lines(o: ShellOutput, included: bool) -> Seq<Seq<char>> {
    let context = if included {
        "included in context"@
    } else {
        "excluded from context"@
    };
    let head = seq![o.shell@ + " "@ + o.command@, context + "  exit code: "@ + o.exit_code@];
    let with_out = if o.stdout@.len() > 0 {
        head + seq![Seq::empty(), trim_end_seq(o.stdout@)]
    } else {
        head
    };
    if o.stderr@.len() > 0 {
        with_out + seq![Seq::empty(), "stderr:\n"@ + trim_end_seq(o.stderr@)]
    } else {
        with_out
    }
}

/// The transcript lines for a shell command's output.
pub fn display_lines(output: &ShellOutput, included_in_context: bool) -> (lines: Vec<String>)
    ensures
        strings_view(lines@) == shell_display_lines(*output, included_in_context),
{
    let mut first = String::new();
    push_str(&mut first, output.shell.as_str());
    push_str(&mut first, " ");
    push_str(&mut first, output.command.as_str());
    let mut second = String::new();
    if included_in_context {
        push_str(&mut second, "included in context");
    } else {
        push_str(&mut second, "excluded from context");
    }
    push_str(&mut second, "  exit code: ");
    push_str(&mut second, output.exit_code.as_str());
    let mut lines: Vec<String> = Vec::new();
    lines.push(first);
    lines.push(second);
    assert(strings_view(lines@) =~= seq![output.shell@ + " "@ + output.command@, (if included_in_context {
        "included in context"@
    } else {
        "excluded from context"@
    }) + "  exit code: "@ + output.exit_code@]);
    if !output.stdout.as_str().is_empty() {
        let ghost before = strings_view(lines@);
        lines.push(String::new());
        lines.push(trim_end_string(output.stdout.as_str()));
        assert(strings_view(lines@) =~= before + seq![Seq::<char>::empty(), trim_end_seq(output.stdout@)]);
    }
    if !output.stderr.as_str().is_empty() {
        let ghost before = strings_view(lines@);
        lines.push(String::new());
        let mut e = String::new();
        push_str(&mut e, "stderr:\n");
        push_str(&mut e, trim_end_string(output.stderr.as_str()).as_str());
        lines.push(e);
        assert(strings_view(lines@) =~= before + seq![Seq::<char>::empty(), "stderr:\n"@ + trim_end_seq(output.stderr@)]);
    }
    lines
}

/// The shells offered for inline commands: the candidates found on this
/// system, plus the configured one when it is not among them.
pub open spec fn offered_shells(found: Seq<Seq<char>>, selected: Seq<char>) -> Seq<Seq<char>> {
    if selected.len() > 0 && !found.contains(selected) {
        found.push(selected)
    } else {
        found
    }
}

/// `existing` (the candidate shells that exist here, in preference order)
/// with `selected` added when it is set and missing.
pub fn available_shells(existing: Vec<String>, selected: &str) -> (shells: Vec<String>)
    ensures
        strings_view(shells@) == offered_shells(strings_view(existing@), selected@),
{
    let mut shells = existing;
    let sel = chars_of(selected);
    let mut found = false;
    let mut i: usize = 0;
    while i < shells.len()
        invariant
            i <= shells@.len(),
            sel@ == selected@,
            found == (exists|k: int| 0 <= k < i && strings_view(shells@)[k] == selected@),
        decreases shells.len() - i,
    {
        let c = chars_of(shells[i].as_str());
        if crate::goal::chars_eq(&c, selected) {
            found = true;
            assert(strings_view(shells@)[i as int] == selected@);
        } else {
            assert(strings_view(shells@)[i as int] != selected@);
        }
        proof {
            if found {
                let k = choose|k: int| 0 <= k < i + 1 && strings_view(shells@)[k] == selected@;
            }
        }
        i += 1;
    }
    proof {
        if !found {
            assert(!strings_view(shells@).contains(selected@));
        } else {
            let k = choose|k: int| 0 <= k < shells@.len() && strings_view(shells@)[k] == selected@;
            assert(strings_view(shells@).contains(selected@));
        }
    }
    if sel.len() > 0 && !found {
        let ghost before = strings_view(shells@);
        shells.push(string_of(&sel));
        assert(strings_view(shells@) =~= before.push(selected@));
    }
    shells
}

/// The text after the last `/` of `s` (all of `s` when it holds none).
pub open spec fn after_last_slash(s: Seq<char>) -> Seq<char>
    decreases s.len(),
{
    if s.len() == 0 {
        s
    } else if s.last() == '/' {
        Seq::empty()
    } else {
        after_last_slash(s.drop_last()).push(s.last())
    }
}

/// Whether `s` holds none of the characters that separate path
/// components or start a drive prefix on any platform.
pub open spec fn no_separators(s: Seq<char>) -> bool {
    !s.contains('/') && !s.contains('\\') && !s.contains(':')
}

/// Whether `r` is the name `t`.
pub open spec fn gives_name(r: Option<String>, t: Seq<char>) -> bool {
    r matches Some(n) && n@ == t
}

/// Whether `c` separates path components on some platform.
pub open spec fn is_separator(c: char) -> bool {
    c == '/' || c == '\\'
}

/// Whether `s` is a path `dir/name` whose last component `name` is plain,
/// and which does not begin with two separators (a network share prefix on
/// some platforms).
pub open spec fn ends_in_plain_component(s: Seq<char>) -> bool {
    &&& s.contains('/')
    &&& plain_component(after_last_slash(s))
    &&& !(s.len() >= 2 && is_separator(s[0]) && is_separator(s[1]))
}

/// Whether `n` is a plain path component everywhere: non-empty, without
/// separators, and neither `.` nor `..`.
pub open spec fn plain_component(n: Seq<char>) -> bool {
    n.len() > 0 && no_separators(n) && n != "."@ && n != ".."@
}

/// Whether `name` is a program name of the shell setting `shell` on every
/// platform: a setting `dir/name` (name a plain component, the setting not
/// beginning with two separators) gives `name`,
/// a setting without separators gives itself, and anything else gives the
/// setting or a non-empty name without `/`.
pub open spec fn program_name_ok(shell: Seq<char>, name: Seq<char>) -> bool {
    &&& name == shell || (name.len() > 0 && !name.contains('/'))
    &&& ends_in_plain_component(shell) ==> name == after_last_slash(shell)
    &&& shell.len() > 0 && no_separators(shell) ==> name == shell
}

/// The final component of `shell` read as a path (`Path::file_name`), as
/// text. Which characters separate components depends on the platform, so
/// what is stated holds on every platform: a name is never empty and never
/// holds a `/`; a path ending in `/` and a plain component gives that
/// component, unless it begins with two separators (which may make a
/// network share prefix that holds the whole path); a path without separators gives itself when it gives
/// anything, and does when it is a plain component. Paths with `\` or `:`
/// are left unsaid beyond that, for they read differently on Windows.
#[verifier::external_body]
fn path_file_name(shell: &str) -> (r: Option<String>)
    ensures
        r matches Some(n) ==> n@.len() > 0 && !n@.contains('/'),
        ends_in_plain_component(shell@) ==> gives_name(r, after_last_slash(shell@)),
        no_separators(shell@) ==> (r matches Some(n) ==> n@ == shell@),
        plain_component(shell@) ==> r.is_some(),
{
    std::path::Path::new(shell).file_name().and_then(|name| name.to_str()).map(|name| name.to_string())
}

/// The program name of a shell setting: the last component of the path,
/// or the setting itself when the path has none.
pub fn executable_name(shell: &str) -> (name: String)
    ensures
        program_name_ok(shell@, name@),
{
    match path_file_name(shell) {
        Some(n) => n,
        None => String::from_str(shell),
    }
}

/// The arguments that run `command` in a shell called `name`: PowerShell
/// gets `-NoLogo -NoProfile -Command`, `cmd` gets `/C`, any other shell
/// runs it as a login shell with `-lc`; the name is compared without
/// regard to ASCII case.
pub open spec fn shell_args(name: Seq<char>, command: Seq<char>) -> Seq<Seq<char>> {
    let l = ascii_lower_seq(name);
    if l == "powershell"@ || l == "powershell.exe"@ || l == "pwsh"@ || l == "pwsh.exe"@ {
        seq!["-NoLogo"@, "-NoProfile"@, "-Command"@, command]
    } else if l == "cmd"@ || l == "cmd.exe"@ {
        seq!["/C"@, command]
    } else {
        seq!["-lc"@, command]
    }
}

/// The arguments for running `command` in the shell program `name`.
pub fn shell_args_for_name(name: &str, command: &str) -> (args: Vec<String>)
    ensures
        strings_view(args@) == shell_args(name@, command@),
{
    let l = ascii_lowercase_chars(name);
    let mut args: Vec<String> = Vec::new();
    if chars_eq(&l, "powershell") || chars_eq(&l, "powershell.exe") || chars_eq(&l, "pwsh") || chars_eq(
        &l,
        "pwsh.exe",
    ) {
        args.push(String::from_str("-NoLogo"));
        args.push(String::from_str("-NoProfile"));
        args.push(String::from_str("-Command"));
    } else if chars_eq(&l, "cmd") || chars_eq(&l, "cmd.exe") {
        args.push(String::from_str("/C"));
    } else {
        args.push(String::from_str("-lc"));
    }
    args.push(String::from_str(command));
    proof {
        assert(strings_view(args@) =~= shell_args(name@, command@));
    }
    args
}

/// The arguments for running `command` in the configured `shell`: those
/// for its program name (see `executable_name`).
pub fn shell_command_args(shell: &str, command: &str) -> (args: Vec<String>)
    ensures
        exists|name: Seq<char>|
            program_name_ok(shell@, name) && strings_view(args@) == #[trigger] shell_args(name, command@),
{
    let name = executable_name(shell);
    let args = shell_args_for_name(name.as_str(), command);
    assert(strings_view(args@) == shell_args(name@, command@));
    args
}

} // verus!
