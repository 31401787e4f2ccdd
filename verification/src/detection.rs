//! Shell detection: which shell to manage (an explicit choice, the parent
//! process, `$SHELL`, the login shell, else the first installed one), which
//! shells are installed, which names collide, and where a name is already
//! defined in a profile.
use vstd::prelude::*;
use crate::error::AliasError;
use crate::model::{Conflict, ShellKind};
use crate::text::{
    chars_of, chars_view, contains_chars, contains_seq, eq_ignore_ascii_case, eq_ignore_ascii_case_str, first_occurrence,
    find_seq, last_occurrence, lemma_first_occurrence_is, lemma_first_occurrence_none, lemma_last_occurrence_none, rfind_seq, str_eq, string_of,
    sub_chars,
};

verus! {

/// What is known about the shell the user runs.
#[derive(Debug)]
pub struct DetectionContext {
    pub explicit: Option<ShellKind>,
    pub parent_shell: Option<ShellKind>,
    pub shell_env: Option<String>,
    pub login_shell: Option<ShellKind>,
}

/// The selected shell, the installed shells and where the selection came
/// from.
#[derive(Debug)]
pub struct DetectionResult {
    pub selected: Option<ShellKind>,
    pub installed: Vec<ShellKind>,
    pub source: String,
}

/// A line of a profile that defines a name.
#[derive(Debug)]
pub struct DefinitionSource {
    pub path: String,
    pub line: usize,
    pub definition: String,
}

// ---------------------------------------------------------------------------
// Shell names
// ---------------------------------------------------------------------------

/// The last component of a path: the text after the last `/`, skipping
/// empty and `.` components at the end; none when nothing remains.
pub open spec fn last_component(s: Seq<char>) -> Option<Seq<char>>
    decreases s.len(),
{
    match last_occurrence(s, seq!['/']) {
        None => if s.len() == 0 || s == seq!['.'] {
            None
        } else {
            Some(s)
        },
        Some(k) => {
            let seg = s.skip(k + 1);
            if seg.len() == 0 || seg == seq!['.'] {
                if 0 <= k < s.len() {
                    last_component(s.take(k))
                } else {
                    None
                }
            } else {
                Some(seg)
            }
        },
    }
}

/// The file name of a path (`Path::file_name` for `/`-separated paths): its
/// last component, unless that is `..`.
pub open spec fn file_name_spec(s: Seq<char>) -> Option<Seq<char>> {
    match last_component(s) {
        Some(n) => if n == seq!['.', '.'] {
            None
        } else {
            Some(n)
        },
        None => None,
    }
}

/// The shell a program name stands for.
pub open spec fn shell_of_name(name: Seq<char>) -> Option<ShellKind> {
    if name == "bash"@ {
        Some(ShellKind::Bash)
    } else if name == "zsh"@ {
        Some(ShellKind::Zsh)
    } else if name == "powershell"@ {
        Some(ShellKind::PowerShell5)
    } else if name == "pwsh"@ {
        Some(ShellKind::PowerShell7)
    } else {
        None
    }
}

/// The shell of a program path such as `$SHELL`.
pub open spec fn parse_shell_name_spec(value: Seq<char>) -> Option<ShellKind> {
    match file_name_spec(value) {
        Some(n) => shell_of_name(n),
        None => None,
    }
}

/// The last component of a path.
fn last_component_of(s: &Vec<char>) -> (r: Option<Vec<char>>)
    ensures
        match r {
            Some(v) => last_component(s@) == Some(v@),
            None => last_component(s@) is None,
        },
{
    let mut end: usize = s.len();
    let mut slash: Vec<char> = Vec::new();
    slash.push('/');
    assert(slash@ =~= seq!['/']);
    assert(s@.take(end as int) =~= s@);
    while end > 0
        invariant
            end <= s@.len(),
            slash@ == seq!['/'],
            last_component(s@.take(end as int)) == last_component(s@),
        decreases end,
    {
        let prefix = sub_chars(s, 0, end);
        assert(prefix@ =~= s@.take(end as int));
        match rfind_seq(&prefix, &slash) {
            None => {
                if prefix.len() == 1 && prefix[0] == '.' {
                    assert(prefix@ =~= seq!['.']);
                    return None;
                }
                assert(prefix@ != seq!['.']) by {
                    if prefix@ == seq!['.'] {
                        assert(prefix@.len() == 1 && prefix@[0] == '.');
                    }
                }
                return Some(prefix);
            },
            Some(k) => {
                let seg = sub_chars(&prefix, k + 1, prefix.len());
                assert(seg@ =~= prefix@.skip(k + 1));
                if seg.len() == 0 || (seg.len() == 1 && seg[0] == '.') {
                    assert(seg.len() == 1 ==> seg@ =~= seq!['.']);
                    assert(prefix@.take(k as int) =~= s@.take(k as int));
                    end = k;
                } else {
                    assert(seg@ != seq!['.']);
                    return Some(seg);
                }
            },
        }
    }
    proof {
        let e = s@.take(0);
        assert(e =~= Seq::<char>::empty());
        assert(!contains_seq(e, seq!['/']));
        lemma_last_occurrence_none(e, seq!['/'], 0);
    }
    None
}

/// The shell of a program path such as `$SHELL`: `bash`, `zsh`,
/// `powershell` or `pwsh` as its file name.
pub fn parse_shell_name(value: &str) -> (r: Option<ShellKind>)
    ensures
        r == parse_shell_name_spec(value@),
{
    let v = chars_of(value);
    match last_component_of(&v) {
        None => None,
        Some(n) => {
            if n.len() == 2 && n[0] == '.' && n[1] == '.' {
                assert(n@ =~= seq!['.', '.']);
                return None;
            }
            assert(n@ != seq!['.', '.']);
            let name = string_of(&n);
            if str_eq(name.as_str(), "bash") {
                Some(ShellKind::Bash)
            } else if str_eq(name.as_str(), "zsh") {
                Some(ShellKind::Zsh)
            } else if str_eq(name.as_str(), "powershell") {
                Some(ShellKind::PowerShell5)
            } else if str_eq(name.as_str(), "pwsh") {
                Some(ShellKind::PowerShell7)
            } else {
                None
            }
        },
    }
}

// ---------------------------------------------------------------------------
// Installed shells and detection
// ---------------------------------------------------------------------------

/// The programs that stand for the shells, in the order they are looked for
/// on `PATH`.
pub fn shell_commands() -> (c: Vec<(&'static str, ShellKind)>)
    ensures
        c@.len() == 4,
        c@[0].0@ == "bash"@ && c@[0].1 == ShellKind::Bash,
        c@[1].0@ == "zsh"@ && c@[1].1 == ShellKind::Zsh,
        c@[2].0@ == "powershell"@ && c@[2].1 == ShellKind::PowerShell5,
        c@[3].0@ == "pwsh"@ && c@[3].1 == ShellKind::PowerShell7,
{
    let mut c = Vec::new();
    c.push(("bash", ShellKind::Bash));
    c.push(("zsh", ShellKind::Zsh));
    c.push(("powershell", ShellKind::PowerShell5));
    c.push(("pwsh", ShellKind::PowerShell7));
    c
}

/// The shells in the order they are looked for.
pub open spec fn shell_order() -> Seq<ShellKind> {
    seq![ShellKind::Bash, ShellKind::Zsh, ShellKind::PowerShell5, ShellKind::PowerShell7]
}

/// The shells whose program was found, in lookup order.
pub open spec fn installed_spec(on_path: Seq<bool>) -> Seq<ShellKind>
    decreases on_path.len(),
{
    if on_path.len() == 0 || on_path.len() > 4 {
        Seq::empty()
    } else {
        let rest = installed_spec(on_path.drop_last());
        if on_path.last() {
            rest.push(shell_order()[on_path.len() - 1])
        } else {
            rest
        }
    }
}

/// The installed shells, given whether each program of `shell_commands` is
/// on `PATH`.
pub fn installed_shells(on_path: &[bool]) -> (r: Vec<ShellKind>)
    requires
        on_path@.len() == 4,
    ensures
        r@ == installed_spec(on_path@),
{
    let order = [ShellKind::Bash, ShellKind::Zsh, ShellKind::PowerShell5, ShellKind::PowerShell7];
    let mut r: Vec<ShellKind> = Vec::new();
    let mut i: usize = 0;
    while i < 4
        invariant
            i <= 4,
            on_path@.len() == 4,
            order@ == shell_order(),
            r@ == installed_spec(on_path@.take(i as int)),
        decreases 4 - i,
    {
        assert(on_path@.take(i + 1).drop_last() =~= on_path@.take(i as int));
        assert(on_path@.take(i + 1).last() == on_path@[i as int]);
        if on_path[i] {
            r.push(order[i]);
        }
        i += 1;
    }
    assert(on_path@.take(4) =~= on_path@);
    r
}

/// The detected shell and its source: an explicit choice, else the parent
/// process's shell, else the shell `$SHELL` names, else the login shell,
/// else the first installed shell.
pub open spec fn detect_spec(
    explicit: Option<ShellKind>,
    parent: Option<ShellKind>,
    shell_env: Option<Seq<char>>,
    login: Option<ShellKind>,
    installed: Seq<ShellKind>,
) -> (Option<ShellKind>, Seq<char>) {
    if explicit is Some {
        (explicit, "explicit"@)
    } else if parent is Some {
        (parent, "parent"@)
    } else if shell_env is Some && parse_shell_name_spec(shell_env->0) is Some {
        (parse_shell_name_spec(shell_env->0), "shell_env"@)
    } else if login is Some {
        (login, "login_shell"@)
    } else {
        (if installed.len() > 0 {
            Some(installed[0])
        } else {
            None
        }, "installed"@)
    }
}

/// Detects the shell to manage, given the installed shells.
pub fn detect(context: &DetectionContext, installed: Vec<ShellKind>) -> (r: DetectionResult)
    ensures
        r.installed@ == installed@,
        (r.selected, r.source@) == detect_spec(
            context.explicit,
            context.parent_shell,
            crate::model::opt_view(context.shell_env),
            context.login_shell,
            installed@,
        ),
{
    if let Some(shell) = context.explicit {
        return DetectionResult { selected: Some(shell), installed, source: String::from_str("explicit") };
    }
    if let Some(shell) = context.parent_shell {
        return DetectionResult { selected: Some(shell), installed, source: String::from_str("parent") };
    }
    if let Some(value) = &context.shell_env {
        if let Some(shell) = parse_shell_name(value.as_str()) {
            return DetectionResult { selected: Some(shell), installed, source: String::from_str("shell_env") };
        }
    }
    if let Some(shell) = context.login_shell {
        return DetectionResult { selected: Some(shell), installed, source: String::from_str("login_shell") };
    }
    let selected = if installed.len() > 0 {
        Some(installed[0])
    } else {
        None
    };
    DetectionResult { selected, installed, source: String::from_str("installed") }
}

// ---------------------------------------------------------------------------
// Conflicts
// ---------------------------------------------------------------------------

/// Names of commands that every shell already has.
pub open spec fn reserved_name(name: Seq<char>) -> bool {
    eq_ignore_ascii_case("ls"@, name) || eq_ignore_ascii_case("cp"@, name) || eq_ignore_ascii_case("mv"@, name)
        || eq_ignore_ascii_case("rm"@, name) || eq_ignore_ascii_case("cat"@, name) || eq_ignore_ascii_case(
        "gc"@,
        name,
    ) || eq_ignore_ascii_case("cd"@, name) || eq_ignore_ascii_case("pwd"@, name)
}

/// The reason given for a reserved name.
pub open spec fn reserved_reason() -> Seq<char> {
    "NameReserved or built-in command"@
}

/// The reason given for a name found on `PATH`.
pub open spec fn path_reason() -> Seq<char> {
    "executable found on PATH"@
}

/// Whether a name is one of the commands every shell has, up to ASCII case.
pub fn is_reserved_name(name: &str) -> (b: bool)
    ensures
        b == reserved_name(name@),
{
    eq_ignore_ascii_case_str("ls", name) || eq_ignore_ascii_case_str("cp", name) || eq_ignore_ascii_case_str(
        "mv",
        name,
    ) || eq_ignore_ascii_case_str("rm", name) || eq_ignore_ascii_case_str("cat", name) || eq_ignore_ascii_case_str(
        "gc",
        name,
    ) || eq_ignore_ascii_case_str("cd", name) || eq_ignore_ascii_case_str("pwd", name)
}

/// The conflicts of a name, given whether a program of that name is on
/// `PATH`: a reserved command first, then the program.
pub fn conflicts(name: &str, on_path: bool) -> (r: Result<Vec<Conflict>, AliasError>)
    ensures
        r matches Ok(v) && v@.len() == (if reserved_name(name@) { 1int } else { 0int }) + (if on_path {
            1int
        } else {
            0int
        }) && (forall|i: int| 0 <= i < v@.len() ==> (#[trigger] v@[i]).name@ == name@) && (reserved_name(name@)
            ==> v@[0].reason@ == reserved_reason()) && (on_path ==> v@[v@.len() - 1].reason@ == path_reason()),
{
    let mut result: Vec<Conflict> = Vec::new();
    if is_reserved_name(name) {
        result.push(
            Conflict { name: String::from_str(name), reason: String::from_str("NameReserved or built-in command") },
        );
    }
    if on_path {
        result.push(Conflict { name: String::from_str(name), reason: String::from_str("executable found on PATH") });
    }
    Ok(result)
}

// ---------------------------------------------------------------------------
// Definitions in profiles
// ---------------------------------------------------------------------------

/// A line without its trailing carriage return.
pub open spec fn strip_cr(l: Seq<char>) -> Seq<char> {
    if l.len() > 0 && l.last() == '\r' {
        l.drop_last()
    } else {
        l
    }
}

/// The lines of a text (`str::lines`): split at line feeds, a carriage
/// return before a line feed dropped, no empty line after a final line feed.
pub open spec fn lines_spec(s: Seq<char>) -> Seq<Seq<char>>
    decreases s.len(),
{
    if s.len() == 0 {
        Seq::empty()
    } else {
        match first_occurrence(s, seq!['\n']) {
            None => seq![s],
            Some(i) => if 0 <= i < s.len() {
                seq![strip_cr(s.take(i))] + lines_spec(s.skip(i + 1))
            } else {
                seq![s]
            },
        }
    }
}

/// The lines of a text (`str::lines`).
pub fn lines_of(c: &Vec<char>) -> (r: Vec<Vec<char>>)
    ensures
        chars_view(r@) == lines_spec(c@),
{
    let mut newline: Vec<char> = Vec::new();
    newline.push('\n');
    assert(newline@ =~= seq!['\n']);
    let mut out: Vec<Vec<char>> = Vec::new();
    let mut start: usize = 0;
    assert(c@.skip(0) =~= c@);
    assert(chars_view(out@) =~= Seq::<Seq<char>>::empty());
    while start < c.len()
        invariant
            start <= c@.len(),
            newline@ == seq!['\n'],
            chars_view(out@) + lines_spec(c@.skip(start as int)) == lines_spec(c@),
        decreases c.len() - start,
    {
        let ghost rv = c@.skip(start as int);
        let rest = sub_chars(c, start, c.len());
        assert(rest@ =~= rv);
        let (line, next) = match find_seq(&rest, &newline) {
            Some(i) => {
                let mut l = sub_chars(&rest, 0, i);
                assert(l@ =~= rv.take(i as int));
                if l.len() > 0 && l[l.len() - 1] == '\r' {
                    l.pop();
                }
                assert(l@ == strip_cr(rv.take(i as int)));
                assert(rv.skip(i + 1) =~= c@.skip(start + i + 1));
                assert(lines_spec(rv) == seq![strip_cr(rv.take(i as int))] + lines_spec(rv.skip(i + 1)));
                (l, start + i + 1)
            },
            None => {
                assert(first_occurrence(rv, seq!['\n']) is None);
                assert(lines_spec(rv) == seq![rv]);
                assert(c@.skip(c@.len() as int) =~= Seq::<char>::empty());
                (rest, c.len())
            },
        };
        let ghost lines = lines_spec(rv);
        assert(lines.len() > 0 && lines[0] == line@);
        assert(lines =~= seq![line@] + lines_spec(c@.skip(next as int)));
        let ghost prev = chars_view(out@);
        out.push(line);
        assert(chars_view(out@) =~= prev.push(lines[0]));
        assert(chars_view(out@) + lines_spec(c@.skip(next as int)) =~= prev + lines);
        start = next;
    }
    assert(c@.skip(start as int) =~= Seq::<char>::empty());
    assert(lines_spec(c@.skip(start as int)) =~= Seq::<Seq<char>>::empty());
    assert(chars_view(out@) + Seq::<Seq<char>>::empty() =~= chars_view(out@));
    out
}

/// Whether a line defines a name: it holds the name and `alias ` or
/// `function `.
pub open spec fn defines(line: Seq<char>, name: Seq<char>) -> bool {
    contains_seq(line, name) && (contains_seq(line, "alias "@) || contains_seq(line, "function "@))
}

/// The first line that defines a name, with its number counted from 1.
pub open spec fn first_definition(lines: Seq<Seq<char>>, name: Seq<char>) -> Option<(int, Seq<char>)>
    decreases lines.len(),
{
    if lines.len() == 0 {
        None
    } else if defines(lines[0], name) {
        Some((1, lines[0]))
    } else {
        match first_definition(lines.skip(1), name) {
            Some((n, l)) => Some((n + 1, l)),
            None => None,
        }
    }
}

/// The first line of a profile's text that defines a name, with its number
/// counted from 1.
pub fn find_definition_in(content: &str, name: &str) -> (r: Option<(usize, String)>)
    ensures
        match r {
            Some((n, l)) => first_definition(lines_spec(content@), name@) == Some((n as int, l@)),
            None => first_definition(lines_spec(content@), name@) is None,
        },
{
    let c = chars_of(content);
    let nm = chars_of(name);
    let alias_word = chars_of("alias ");
    let function_word = chars_of("function ");
    let mut newline: Vec<char> = Vec::new();
    newline.push('\n');
    assert(newline@ =~= seq!['\n']);
    let mut start: usize = 0;
    let mut count: usize = 0;
    assert(c@.skip(0) =~= c@);
    while start < c.len()
        invariant
            start <= c@.len(),
            c@ == content@,
            nm@ == name@,
            alias_word@ == "alias "@,
            function_word@ == "function "@,
            newline@ == seq!['\n'],
            count <= start,
            ({
                let rest = first_definition(lines_spec(c@.skip(start as int)), name@);
                let all = first_definition(lines_spec(content@), name@);
                &&& rest is None ==> all is None
                &&& rest matches Some((n, l)) ==> all == Some((n + count, l))
            }),
        decreases c.len() - start,
    {
        let ghost rv = c@.skip(start as int);
        let rest = sub_chars(&c, start, c.len());
        assert(rest@ =~= rv);
        let (line, next) = match find_seq(&rest, &newline) {
            Some(i) => {
                let mut l = sub_chars(&rest, 0, i);
                assert(l@ =~= rv.take(i as int));
                if l.len() > 0 && l[l.len() - 1] == '\r' {
                    l.pop();
                }
                assert(l@ == strip_cr(rv.take(i as int)));
                assert(rv.skip(i + 1) =~= c@.skip(start + i + 1));
                assert(lines_spec(rv) == seq![strip_cr(rv.take(i as int))] + lines_spec(rv.skip(i + 1)));
                (l, start + i + 1)
            },
            None => {
                assert(first_occurrence(rv, seq!['\n']) is None);
                assert(lines_spec(rv) == seq![rv]);
                assert(c@.skip(c@.len() as int) =~= Seq::<char>::empty());
                (rest, c.len())
            },
        };
        let ghost lines = lines_spec(rv);
        assert(lines.len() > 0 && lines[0] == line@);
        assert(lines.skip(1) =~= lines_spec(c@.skip(next as int)));
        if contains_chars(&line, &nm) && (contains_chars(&line, &alias_word) || contains_chars(&line, &function_word)) {
            return Some((count + 1, string_of(&line)));
        }
        start = next;
        count = count + 1;
    }
    assert(c@.skip(start as int) =~= Seq::<char>::empty());
    None
}

} // verus!
