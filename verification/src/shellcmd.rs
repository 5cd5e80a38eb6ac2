use vstd::prelude::*;
use vstd::string::StringExecFns;
use crate::model::ShellKind;
use crate::text::{
    spec_replace, spec_is_space, replace_all, chars_of, string_from_chars, is_space,
};

verus! {

/// What the engine asks the embedder to spawn: a program and its argument
/// list, with any shell wrapping already applied.
pub struct CommandSpec {
    pub program: String,
    pub args: Vec<String>,
}

/// The mathematical image of a command specification.
pub struct CommandSpecView {
    pub program: Seq<char>,
    pub args: Seq<Seq<char>>,
}

impl View for CommandSpec {
    type V = CommandSpecView;

    open spec fn view(&self) -> CommandSpecView {
        CommandSpecView { program: self.program@, args: self.args@.map_values(|s: String| s@) }
    }
}

/// Characters safe to pass to a shell unquoted.
pub open spec fn spec_plain_arg_char(c: char) -> bool {
    ('a' <= c && c <= 'z') || ('A' <= c && c <= 'Z') || ('0' <= c && c <= '9') || c == '-' || c
        == '_' || c == '.' || c == '/'
}

fn is_plain_arg_char(c: char) -> (r: bool)
    ensures
        r == spec_plain_arg_char(c),
{
    ('a' <= c && c <= 'z') || ('A' <= c && c <= 'Z') || ('0' <= c && c <= '9') || c == '-' || c
        == '_' || c == '.' || c == '/'
}

pub open spec fn spec_all_plain(a: Seq<char>) -> bool {
    forall|i: int| 0 <= i < a.len() ==> spec_plain_arg_char(a[i])
}

fn all_plain(v: &Vec<char>) -> (r: bool)
    ensures
        r == spec_all_plain(v@),
{
    let n = v.len();
    let mut i: usize = 0;
    while i < n
        invariant
            i <= n,
            n == v@.len(),
            forall|j: int| 0 <= j < i ==> spec_plain_arg_char(v@[j]),
        decreases n - i,
    {
        if !is_plain_arg_char(v[i]) {
            return false;
        }
        i = i + 1;
    }
    true
}

/// An argument quoted for a POSIX shell: passed bare when every character
/// is safe, else single-quoted with embedded quotes escaped.
pub open spec fn spec_quote_sh(a: Seq<char>) -> Seq<char> {
    if spec_all_plain(a) {
        a
    } else {
        seq!['\''] + spec_replace(a, seq!['\''], seq!['\'', '\\', '\'', '\'']) + seq!['\'']
    }
}

/// An argument quoted for PowerShell: embedded quotes double.
pub open spec fn spec_quote_ps(a: Seq<char>) -> Seq<char> {
    if spec_all_plain(a) {
        a
    } else {
        seq!['\''] + spec_replace(a, seq!['\''], seq!['\'', '\'']) + seq!['\'']
    }
}

/// Parts joined with single spaces.
pub open spec fn spec_join_space(parts: Seq<Seq<char>>) -> Seq<char>
    decreases parts.len(),
{
    if parts.len() == 0 {
        Seq::empty()
    } else if parts.len() == 1 {
        parts[0]
    } else {
        parts[0] + seq![' '] + spec_join_space(parts.drop_first())
    }
}

proof fn lemma_join_space_push(parts: Seq<Seq<char>>, x: Seq<char>)
    ensures
        spec_join_space(parts.push(x)) == if parts.len() == 0 {
            x
        } else {
            spec_join_space(parts) + seq![' '] + x
        },
    decreases parts.len(),
{
    if parts.len() == 0 {
        assert(parts.push(x)[0] == x);
    } else {
        assert(parts.push(x)[0] == parts[0]);
        assert(parts.push(x).drop_first() =~= parts.drop_first().push(x));
        lemma_join_space_push(parts.drop_first(), x);
        if parts.len() == 1 {
            assert(parts.drop_first() =~= Seq::<Seq<char>>::empty());
        } else {
            assert((parts[0] + seq![' '] + (spec_join_space(parts.drop_first()) + seq![' '] + x))
                =~= (parts[0] + seq![' '] + spec_join_space(parts.drop_first())) + seq![' '] + x);
        }
    }
}

fn quote_sh(a: &str) -> (r: Vec<char>)
    ensures
        r@ == spec_quote_sh(a@),
{
    let v = chars_of(a);
    if all_plain(&v) {
        v
    } else {
        let mut from: Vec<char> = Vec::new();
        from.push('\'');
        let mut to: Vec<char> = Vec::new();
        to.push('\'');
        to.push('\\');
        to.push('\'');
        to.push('\'');
        proof {
            assert(from@ =~= seq!['\'']);
            assert(to@ =~= seq!['\'', '\\', '\'', '\'']);
        }
        let pair = replace_all(&v, &from, &to);
        let mut out: Vec<char> = Vec::new();
        out.push('\'');
        proof {
            assert(out@ =~= seq!['\'']);
        }
        let mut out = crate::text::concat_chars(&out, &pair.0);
        out.push('\'');
        proof {
            assert(out@ =~= spec_quote_sh(a@));
        }
        out
    }
}

fn quote_ps(a: &str) -> (r: Vec<char>)
    ensures
        r@ == spec_quote_ps(a@),
{
    let v = chars_of(a);
    if all_plain(&v) {
        v
    } else {
        let mut from: Vec<char> = Vec::new();
        from.push('\'');
        let mut to: Vec<char> = Vec::new();
        to.push('\'');
        to.push('\'');
        proof {
            assert(from@ =~= seq!['\'']);
            assert(to@ =~= seq!['\'', '\'']);
        }
        let pair = replace_all(&v, &from, &to);
        let mut out: Vec<char> = Vec::new();
        out.push('\'');
        proof {
            assert(out@ =~= seq!['\'']);
        }
        let mut out = crate::text::concat_chars(&out, &pair.0);
        out.push('\'');
        proof {
            assert(out@ =~= spec_quote_ps(a@));
        }
        out
    }
}

/// The arguments, each shell-quoted, joined with spaces.
pub open spec fn spec_join_shell_args(args: Seq<Seq<char>>) -> Seq<char> {
    spec_join_space(args.map_values(|a: Seq<char>| spec_quote_sh(a)))
}

/// Quotes and joins arguments for a POSIX shell line; see
/// `spec_join_shell_args`.
pub fn join_shell_args(args: &Vec<String>) -> (r: String)
    ensures
        r@ == spec_join_shell_args(args@.map_values(|s: String| s@)),
{
    let ghost views = args@.map_values(|s: String| s@);
    let ghost quoted = views.map_values(|a: Seq<char>| spec_quote_sh(a));
    let n = args.len();
    let mut out: Vec<char> = Vec::new();
    let mut i: usize = 0;
    proof {
        assert(quoted.take(0) =~= Seq::<Seq<char>>::empty());
    }
    while i < n
        invariant
            i <= n,
            n == args@.len(),
            views == args@.map_values(|s: String| s@),
            quoted == views.map_values(|a: Seq<char>| spec_quote_sh(a)),
            out@ == spec_join_space(quoted.take(i as int)),
        decreases n - i,
    {
        let q = quote_sh(args[i].as_str());
        proof {
            assert(quoted.take(i + 1 as int) =~= quoted.take(i as int).push(q@));
            lemma_join_space_push(quoted.take(i as int), q@);
        }
        if i > 0 {
            out.push(' ');
        }
        let merged = crate::text::concat_chars(&out, &q);
        out = merged;
        proof {
            if i == 0 {
                assert(spec_join_space(quoted.take(0)) =~= Seq::<char>::empty());
                assert(out@ =~= q@);
            }
        }
        i = i + 1;
    }
    proof {
        assert(quoted.take(n as int) =~= quoted);
    }
    string_from_chars(&out)
}

/// The command and its PowerShell-quoted arguments as one line.
pub open spec fn spec_join_powershell(command: Seq<char>, args: Seq<Seq<char>>) -> Seq<char> {
    spec_join_space(seq![command] + args.map_values(|a: Seq<char>| spec_quote_ps(a)))
}

/// Builds the single PowerShell command line; see `spec_join_powershell`.
pub fn join_powershell(command: &str, args: &Vec<String>) -> (r: String)
    ensures
        r@ == spec_join_powershell(command@, args@.map_values(|s: String| s@)),
{
    let ghost views = args@.map_values(|s: String| s@);
    let ghost quoted = views.map_values(|a: Seq<char>| spec_quote_ps(a));
    let ghost parts = seq![command@] + quoted;
    let n = args.len();
    let mut out: Vec<char> = chars_of(command);
    let mut i: usize = 0;
    proof {
        assert(parts.take(1) =~= seq![command@]);
        assert(out@ == spec_join_space(parts.take(1)));
    }
    while i < n
        invariant
            i <= n,
            n == args@.len(),
            views == args@.map_values(|s: String| s@),
            quoted == views.map_values(|a: Seq<char>| spec_quote_ps(a)),
            parts == seq![command@] + quoted,
            out@ == spec_join_space(parts.take(i + 1 as int)),
        decreases n - i,
    {
        let q = quote_ps(args[i].as_str());
        proof {
            assert(parts.take(i + 2 as int) =~= parts.take(i + 1 as int).push(q@));
            lemma_join_space_push(parts.take(i + 1 as int), q@);
        }
        out.push(' ');
        let merged = crate::text::concat_chars(&out, &q);
        out = merged;
        i = i + 1;
    }
    proof {
        assert(parts.take(n + 1 as int) =~= parts);
    }
    string_from_chars(&out)
}

/// How each shell choice turns a command and arguments into a process
/// invocation: a direct spawn for the default shell; PowerShell runs the
/// quoted line under `-NoProfile -Command`; bash and zsh run it as a login
/// shell line under `-lc`. PowerShell is always spawned as `pwsh`, the
/// cross-platform binary name (this model has no platform conditionals, so
/// the Windows-only `powershell` name is not chosen).
pub open spec fn spec_build_command(
    shell: ShellKind,
    command: Seq<char>,
    args: Seq<Seq<char>>,
) -> CommandSpecView {
    match shell {
        ShellKind::Default => CommandSpecView { program: command, args },
        ShellKind::Powershell => CommandSpecView {
            program: "pwsh"@,
            args: seq!["-NoProfile"@, "-Command"@, spec_join_powershell(command, args)],
        },
        ShellKind::Bash => CommandSpecView {
            program: "bash"@,
            args: seq!["-lc"@, spec_shell_line(command, args)],
        },
        ShellKind::Zsh => CommandSpecView {
            program: "zsh"@,
            args: seq!["-lc"@, spec_shell_line(command, args)],
        },
    }
}

/// The one-line script handed to a POSIX shell.
pub open spec fn spec_shell_line(command: Seq<char>, args: Seq<Seq<char>>) -> Seq<char> {
    if args.len() == 0 {
        command
    } else {
        command + seq![' '] + spec_join_shell_args(args)
    }
}

fn shell_line(command: &str, args: &Vec<String>) -> (r: String)
    ensures
        r@ == spec_shell_line(command@, args@.map_values(|s: String| s@)),
{
    if args.len() == 0 {
        command.to_owned()
    } else {
        let joined = join_shell_args(args);
        let mut s = command.to_owned();
        s.append(" ");
        s.append(joined.as_str());
        proof {
            reveal_strlit(" ");
            assert(" "@ =~= seq![' ']);
            assert(s@ =~= spec_shell_line(command@, args@.map_values(|x: String| x@)));
        }
        s
    }
}

/// Builds the process invocation for an external command; see
/// `spec_build_command`.
pub fn build_command(shell: &ShellKind, command: &str, args: &Vec<String>) -> (r: CommandSpec)
    ensures
        r@ == spec_build_command(*shell, command@, args@.map_values(|s: String| s@)),
{
    match shell {
        ShellKind::Default => {
            let mut copied: Vec<String> = Vec::new();
            let n = args.len();
            let mut i: usize = 0;
            while i < n
                invariant
                    i <= n,
                    n == args@.len(),
                    copied@.len() == i,
                    forall|j: int| 0 <= j < i ==> #[trigger] copied@[j]@ == args@[j]@,
                decreases n - i,
            {
                copied.push(args[i].clone());
                i = i + 1;
            }
            proof {
                assert(copied@.map_values(|s: String| s@) =~= args@.map_values(|s: String| s@));
            }
            CommandSpec { program: command.to_owned(), args: copied }
        },
        ShellKind::Powershell => {
            let line = join_powershell(command, args);
            let mut v: Vec<String> = Vec::new();
            v.push(String::from_str("-NoProfile"));
            v.push(String::from_str("-Command"));
            v.push(line);
            proof {
                assert(v@.map_values(|s: String| s@) =~= seq![
                    "-NoProfile"@,
                    "-Command"@,
                    spec_join_powershell(command@, args@.map_values(|s: String| s@)),
                ]);
            }
            CommandSpec { program: String::from_str("pwsh"), args: v }
        },
        ShellKind::Bash => {
            let line = shell_line(command, args);
            let mut v: Vec<String> = Vec::new();
            v.push(String::from_str("-lc"));
            v.push(line);
            proof {
                assert(v@.map_values(|s: String| s@) =~= seq![
                    "-lc"@,
                    spec_shell_line(command@, args@.map_values(|s: String| s@)),
                ]);
            }
            CommandSpec { program: String::from_str("bash"), args: v }
        },
        ShellKind::Zsh => {
            let line = shell_line(command, args);
            let mut v: Vec<String> = Vec::new();
            v.push(String::from_str("-lc"));
            v.push(line);
            proof {
                assert(v@.map_values(|s: String| s@) =~= seq![
                    "-lc"@,
                    spec_shell_line(command@, args@.map_values(|s: String| s@)),
                ]);
            }
            CommandSpec { program: String::from_str("zsh"), args: v }
        },
    }
}

/// Control characters a process may print, scrubbed so the textual log
/// stays readable.
pub open spec fn spec_is_control(c: char) -> bool {
    (c as u32) < 0x20 || c as u32 == 0x7f || (0x80 <= c as u32 && c as u32 <= 0x9f)
}

pub open spec fn spec_keep_output_char(c: char) -> bool {
    c == '\n' || c == '\t' || (c != '\u{fffd}' && !spec_is_control(c))
}

/// Process output normalized for the log: line endings unified, control
/// and replacement characters dropped, and output that is all whitespace
/// collapsed to nothing.
pub open spec fn spec_sanitize_output(s: Seq<char>) -> Seq<char> {
    let unified = spec_replace(
        spec_replace(s, seq!['\r', '\n'], seq!['\n']),
        seq!['\r'],
        seq!['\n'],
    );
    let cleaned = unified.filter(|c: char| spec_keep_output_char(c));
    if exists|i: int| 0 <= i < cleaned.len() && !spec_is_space(cleaned[i]) {
        cleaned
    } else {
        Seq::empty()
    }
}

/// Scrubs process output for the log; see `spec_sanitize_output`.
pub fn sanitize_output(input: &str) -> (r: String)
    ensures
        r@ == spec_sanitize_output(input@),
{
    let v = chars_of(input);
    let mut crlf: Vec<char> = Vec::new();
    crlf.push('\r');
    crlf.push('\n');
    let mut lf: Vec<char> = Vec::new();
    lf.push('\n');
    let mut cr: Vec<char> = Vec::new();
    cr.push('\r');
    proof {
        assert(crlf@ =~= seq!['\r', '\n']);
        assert(lf@ =~= seq!['\n']);
        assert(cr@ =~= seq!['\r']);
    }
    let step1 = replace_all(&v, &crlf, &lf);
    let step2 = replace_all(&step1.0, &cr, &lf);
    let unified = step2.0;
    let n = unified.len();
    let mut cleaned: Vec<char> = Vec::new();
    let mut has_visible: bool = false;
    let mut i: usize = 0;
    proof {
        reveal(Seq::filter);
        assert(unified@.take(0) =~= Seq::<char>::empty());
    }
    while i < n
        invariant
            i <= n,
            n == unified@.len(),
            cleaned@ == unified@.take(i as int).filter(|c: char| spec_keep_output_char(c)),
            has_visible == exists|j: int|
                0 <= j < cleaned@.len() && !spec_is_space(cleaned@[j]),
        decreases n - i,
    {
        proof {
            reveal(Seq::filter);
            assert(unified@.take(i + 1 as int).drop_last() =~= unified@.take(i as int));
            assert(unified@.take(i + 1 as int).last() == unified@[i as int]);
        }
        let c = unified[i];
        let u = c as u32;
        let is_ctl = u < 0x20 || u == 0x7f || (0x80 <= u && u <= 0x9f);
        let keep = c == '\n' || c == '\t' || (c != '\u{fffd}' && !is_ctl);
        if keep {
            let ghost before = cleaned@;
            cleaned.push(c);
            if !is_space(c) {
                has_visible = true;
                proof {
                    assert(cleaned@[cleaned@.len() - 1] == c);
                }
            } else {
                proof {
                    if exists|j: int| 0 <= j < before.len() && !spec_is_space(before[j]) {
                        let j = choose|j: int|
                            0 <= j < before.len() && !spec_is_space(before[j]);
                        assert(cleaned@[j] == before[j]);
                    }
                    if exists|j: int| 0 <= j < cleaned@.len() && !spec_is_space(cleaned@[j]) {
                        let j = choose|j: int|
                            0 <= j < cleaned@.len() && !spec_is_space(cleaned@[j]);
                        assert(j < before.len() ==> before[j] == cleaned@[j]);
                    }
                }
            }
        }
        i = i + 1;
    }
    proof {
        assert(unified@.take(n as int) =~= unified@);
    }
    if has_visible {
        string_from_chars(&cleaned)
    } else {
        proof {
            assert(spec_sanitize_output(input@) =~= Seq::<char>::empty());
        }
        String::new()
    }
}

} // verus!
