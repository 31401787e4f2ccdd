//! Configuration: where the alias manager keeps its files, the settings it
//! reads from `config.toml`, and how it judges the file system it writes to.
use vstd::prelude::*;
use crate::detection::{lines_of, lines_spec};
use crate::text::{
    chars_of, chars_view, ends_with, ends_with_chars, is_white_space, is_white_space_char, starts_with, starts_with_chars,
    string_of,
};

verus! {

/// How many backups to keep and how large they may grow.
#[derive(Debug)]
pub struct BackupConfig {
    pub rc_keep: usize,
    pub generated_keep: usize,
    pub db_keep: usize,
    pub max_total_bytes: u64,
}

impl Default for BackupConfig {
    /// Ten profile and generated-file backups, five database backups, 64 MiB.
    fn default() -> (c: Self)
        ensures
            c.rc_keep == 10,
            c.generated_keep == 10,
            c.db_keep == 5,
            c.max_total_bytes == 64 * 1024 * 1024,
    {
        BackupConfig { rc_keep: 10, generated_keep: 10, db_keep: 5, max_total_bytes: 64 * 1024 * 1024 }
    }
}

/// How large a log file may grow and how many to keep.
#[derive(Debug)]
pub struct LogConfig {
    pub max_file_bytes: u64,
    pub keep_files: usize,
}

impl Default for LogConfig {
    /// 8 MiB per file, seven files.
    fn default() -> (c: Self)
        ensures
            c.max_file_bytes == 8 * 1024 * 1024,
            c.keep_files == 7,
    {
        LogConfig { max_file_bytes: 8 * 1024 * 1024, keep_files: 7 }
    }
}

/// For how many revisions a retired name is still cleaned up.
#[derive(Debug)]
pub struct RetiredNameConfig {
    pub keep_revisions: i64,
}

impl Default for RetiredNameConfig {
    /// Twenty revisions.
    fn default() -> (c: Self)
        ensures
            c.keep_revisions == 20,
    {
        RetiredNameConfig { keep_revisions: 20 }
    }
}

/// Profile paths that replace the detected ones.
#[derive(Debug)]
pub struct ShellPathOverrides {
    pub bash_rc_path: Option<String>,
    pub zsh_rc_path: Option<String>,
    pub powershell5_profile_path: Option<String>,
    pub powershell7_profile_path: Option<String>,
}

impl Default for ShellPathOverrides {
    /// No overrides.
    fn default() -> (c: Self)
        ensures
            c.bash_rc_path is None,
            c.zsh_rc_path is None,
            c.powershell5_profile_path is None,
            c.powershell7_profile_path is None,
    {
        ShellPathOverrides {
            bash_rc_path: None,
            zsh_rc_path: None,
            powershell5_profile_path: None,
            powershell7_profile_path: None,
        }
    }
}

/// The settings of `config.toml`.
#[derive(Debug)]
pub struct AppConfig {
    pub backups: BackupConfig,
    pub logs: LogConfig,
    pub retired_names: RetiredNameConfig,
    pub shells: ShellPathOverrides,
}

impl Default for AppConfig {
    /// The default of every section.
    fn default() -> (c: Self)
        ensures
            c.backups.rc_keep == 10,
            c.backups.generated_keep == 10,
            c.backups.db_keep == 5,
            c.backups.max_total_bytes == 64 * 1024 * 1024,
            c.logs.max_file_bytes == 8 * 1024 * 1024,
            c.logs.keep_files == 7,
            c.retired_names.keep_revisions == 20,
            c.shells.bash_rc_path is None,
            c.shells.zsh_rc_path is None,
            c.shells.powershell5_profile_path is None,
            c.shells.powershell7_profile_path is None,
    {
        AppConfig {
            backups: BackupConfig::default(),
            logs: LogConfig::default(),
            retired_names: RetiredNameConfig::default(),
            shells: ShellPathOverrides::default(),
        }
    }
}

// ---------------------------------------------------------------------------
// Paths
// ---------------------------------------------------------------------------

/// A relative path joined to a base: the path itself under an empty base,
/// else with one `/` between them.
pub open spec fn join_path_spec(base: Seq<char>, rel: Seq<char>) -> Seq<char> {
    if base.len() == 0 {
        rel
    } else if ends_with(base, seq!['/']) {
        base + rel
    } else {
        base + seq!['/'] + rel
    }
}

/// Joins a relative path to a base.
pub fn join_path(base: &str, rel: &str) -> (p: String)
    ensures
        p@ == join_path_spec(base@, rel@),
{
    let b = chars_of(base);
    let mut slash: Vec<char> = Vec::new();
    slash.push('/');
    assert(slash@ =~= seq!['/']);
    let mut p = String::from_str(base);
    if b.len() == 0 {
        return String::from_str(rel);
    }
    if !ends_with_chars(&b, &slash) {
        p.append("/");
        proof {
            reveal_strlit("/");
        }
    }
    p.append(rel);
    p
}

/// Where the alias manager keeps its files.
#[derive(Debug)]
pub struct AppPaths {
    pub root: String,
}

/// The platform's default configuration directory: the local application
/// data directory (or `.`) on Windows; elsewhere `alias-manager` under the
/// XDG configuration directory, or `~/.config/alias-manager`.
pub open spec fn platform_root_spec(windows: bool, local_app_data: Option<Seq<char>>, xdg_config_home: Option<Seq<char>>) -> Seq<char> {
    if windows {
        match local_app_data {
            Some(d) => d,
            None => "."@,
        }
    } else {
        match xdg_config_home {
            Some(d) => join_path_spec(d, "alias-manager"@),
            None => "~/.config/alias-manager"@,
        }
    }
}

/// The configuration directory: the one given on the command line, else
/// `ALIASMGR_CONFIG_DIR`, else the platform's default.
pub open spec fn discover_spec(
    cli: Option<Seq<char>>,
    config_dir_env: Option<Seq<char>>,
    windows: bool,
    local_app_data: Option<Seq<char>>,
    xdg_config_home: Option<Seq<char>>,
) -> Seq<char> {
    match cli {
        Some(p) => p,
        None => match config_dir_env {
            Some(p) => p,
            None => platform_root_spec(windows, local_app_data, xdg_config_home),
        },
    }
}

/// The text of an optional string slice.
pub open spec fn opt_str_view(o: Option<&str>) -> Option<Seq<char>> {
    match o {
        Some(s) => Some(s@),
        None => None,
    }
}

/// The extension of a shell's generated file.
pub open spec fn generated_extension(shell: Seq<char>) -> Seq<char> {
    if starts_with(shell, "powershell"@) {
        "ps1"@
    } else {
        "sh"@
    }
}

impl AppPaths {
    /// The configuration directory from the command line, the environment
    /// and the platform.
    pub fn discover_from(
        cli: Option<&str>,
        config_dir_env: Option<&str>,
        windows: bool,
        local_app_data: Option<&str>,
        xdg_config_home: Option<&str>,
    ) -> (p: AppPaths)
        ensures
            p.root@ == discover_spec(
                opt_str_view(cli),
                opt_str_view(config_dir_env),
                windows,
                opt_str_view(local_app_data),
                opt_str_view(xdg_config_home),
            ),
    {
        if let Some(path) = cli {
            return AppPaths { root: String::from_str(path) };
        }
        if let Some(path) = config_dir_env {
            return AppPaths { root: String::from_str(path) };
        }
        let root = if windows {
            match local_app_data {
                Some(d) => String::from_str(d),
                None => String::from_str("."),
            }
        } else {
            match xdg_config_home {
                Some(d) => join_path(d, "alias-manager"),
                None => String::from_str("~/.config/alias-manager"),
            }
        };
        AppPaths { root }
    }

    /// The directories the alias manager writes to: the root, the generated
    /// files, the three backup directories and the logs.
    pub fn required_directories(&self) -> (dirs: Vec<String>)
        ensures
            dirs@.len() == 6,
            dirs@[0]@ == self.root@,
            dirs@[1]@ == join_path_spec(self.root@, "generated"@),
            dirs@[2]@ == join_path_spec(self.root@, "backups/rc"@),
            dirs@[3]@ == join_path_spec(self.root@, "backups/generated"@),
            dirs@[4]@ == join_path_spec(self.root@, "backups/db"@),
            dirs@[5]@ == join_path_spec(self.root@, "logs"@),
    {
        let mut dirs: Vec<String> = Vec::new();
        dirs.push(self.root.clone());
        dirs.push(join_path(self.root.as_str(), "generated"));
        dirs.push(join_path(self.root.as_str(), "backups/rc"));
        dirs.push(join_path(self.root.as_str(), "backups/generated"));
        dirs.push(join_path(self.root.as_str(), "backups/db"));
        dirs.push(join_path(self.root.as_str(), "logs"));
        dirs
    }

    /// The generated file of a shell: `generated/<shell>.ps1` for names that
    /// begin with `powershell`, `generated/<shell>.sh` otherwise.
    pub fn generated_path(&self, shell: &str) -> (p: String)
        ensures
            p@ == join_path_spec(join_path_spec(self.root@, "generated"@), shell@ + "."@ + generated_extension(shell@)),
    {
        let prefix = chars_of("powershell");
        let extension = if starts_with_chars(&chars_of(shell), &prefix) {
            "ps1"
        } else {
            "sh"
        };
        let mut file = String::from_str(shell);
        file.append(".");
        file.append(extension);
        let dir = join_path(self.root.as_str(), "generated");
        join_path(dir.as_str(), file.as_str())
    }

    /// The settings file.
    pub fn config_file(&self) -> (p: String)
        ensures
            p@ == join_path_spec(self.root@, "config.toml"@),
    {
        join_path(self.root.as_str(), "config.toml")
    }
}

// ---------------------------------------------------------------------------
// The file system
// ---------------------------------------------------------------------------

/// Whether replacing a file by renaming is reliable on a file system.
#[derive(Debug, Clone, Copy, PartialEq, Eq, Structural)]
pub enum FilesystemReliability {
    Reliable,
    FallbackDelete,
    Unknown,
}

/// Whether users other than the owner may write a path.
#[derive(Debug, Clone, Copy, PartialEq, Eq, Structural)]
pub enum PathSafety {
    Safe,
    OtherWritable,
    Unknown,
}

/// File systems where a rename may not replace a file atomically.
pub open spec fn network_filesystem(kind: Seq<char>) -> bool {
    kind == "nfs"@ || kind == "nfs4"@ || kind == "cifs"@ || kind == "smbfs"@ || kind == "9p"@ || kind == "fuse.sshfs"@
}

/// Local file systems where a rename replaces a file atomically.
pub open spec fn local_filesystem(kind: Seq<char>) -> bool {
    kind == "ext2"@ || kind == "ext3"@ || kind == "ext4"@ || kind == "xfs"@ || kind == "btrfs"@ || kind == "tmpfs"@
        || kind == "overlay"@
}

/// The reliability of a file system by its kind; an unknown or missing kind
/// is unknown.
pub open spec fn classify_spec(kind: Option<Seq<char>>) -> FilesystemReliability {
    match kind {
        Some(k) => if network_filesystem(k) {
            FilesystemReliability::FallbackDelete
        } else if local_filesystem(k) {
            FilesystemReliability::Reliable
        } else {
            FilesystemReliability::Unknown
        },
        None => FilesystemReliability::Unknown,
    }
}

/// The reliability of a file system by its kind.
pub fn classify_filesystem(kind: Option<&str>) -> (r: FilesystemReliability)
    ensures
        r == classify_spec(opt_str_view(kind)),
{
    match kind {
        None => FilesystemReliability::Unknown,
        Some(k) => {
            let is = |name: &str| -> (b: bool)
                ensures
                    b == (k@ == name@),
                { crate::text::str_eq(k, name) };
            if is("nfs") || is("nfs4") || is("cifs") || is("smbfs") || is("9p") || is("fuse.sshfs") {
                FilesystemReliability::FallbackDelete
            } else if is("ext2") || is("ext3") || is("ext4") || is("xfs") || is("btrfs") || is("tmpfs") || is(
                "overlay",
            ) {
                FilesystemReliability::Reliable
            } else {
                FilesystemReliability::Unknown
            }
        },
    }
}

/// The safety of a path from its permission bits: writable by others when
/// the others-write bit is set; unknown without metadata.
pub fn path_safety(mode: Option<u32>) -> (s: PathSafety)
    ensures
        s == match mode {
            Some(m) => if m & 2 != 0 {
                PathSafety::OtherWritable
            } else {
                PathSafety::Safe
            },
            None => PathSafety::Unknown,
        },
{
    match mode {
        Some(m) => if m & 2 != 0 {
            PathSafety::OtherWritable
        } else {
            PathSafety::Safe
        },
        None => PathSafety::Unknown,
    }
}

// ---------------------------------------------------------------------------
// The mount table
// ---------------------------------------------------------------------------

/// Whether a character separates pieces: white space between words, `/`
/// between path components.
pub open spec fn separates(c: char, words: bool) -> bool {
    if words {
        is_white_space(c)
    } else {
        c == '/'
    }
}

/// A finished piece: a word when not empty; a path component when neither
/// empty nor `.`.
pub open spec fn piece(cur: Seq<char>, words: bool) -> Seq<Seq<char>> {
    if cur.len() > 0 && (words || cur != seq!['.']) {
        seq![cur]
    } else {
        Seq::empty()
    }
}

/// The pieces of `s` from position `i`, `cur` being the piece begun before.
pub open spec fn pieces_from(s: Seq<char>, i: int, cur: Seq<char>, words: bool) -> Seq<Seq<char>>
    decreases s.len() - i,
{
    if i < 0 || i >= s.len() {
        piece(cur, words)
    } else if separates(s[i], words) {
        piece(cur, words) + pieces_from(s, i + 1, Seq::empty(), words)
    } else {
        pieces_from(s, i + 1, cur.push(s[i]), words)
    }
}

/// The words of a line (`str::split_whitespace`).
pub open spec fn words_of(s: Seq<char>) -> Seq<Seq<char>> {
    pieces_from(s, 0, Seq::empty(), true)
}

/// What a path begins with: the root for `/`, the current directory for a
/// leading `.` component, nothing otherwise.
pub open spec fn path_start(p: Seq<char>) -> Seq<Seq<char>> {
    if p.len() > 0 && p[0] == '/' {
        seq![seq!['/']]
    } else if p == seq!['.'] || (p.len() >= 2 && p[0] == '.' && p[1] == '/') {
        seq![seq!['.']]
    } else {
        Seq::empty()
    }
}

/// The components of a Unix path (`Path::components`): repeated and
/// trailing separators and inner `.` components do not count.
pub open spec fn components_of(p: Seq<char>) -> Seq<Seq<char>> {
    path_start(p) + pieces_from(p, 0, Seq::empty(), false)
}

/// Whether a path lies under a base path, component by component
/// (`Path::starts_with`).
pub open spec fn path_starts_with(path: Seq<char>, base: Seq<char>) -> bool {
    let b = components_of(base);
    let c = components_of(path);
    b.len() <= c.len() && c.take(b.len() as int) == b
}

/// How many bytes UTF-8 takes for a character.
pub open spec fn utf8_width(c: char) -> nat {
    if (c as u32) < 0x80 {
        1
    } else if (c as u32) < 0x800 {
        2
    } else if (c as u32) < 0x10000 {
        3
    } else {
        4
    }
}

/// How many bytes UTF-8 takes for a text (`str::len`).
pub open spec fn utf8_len(s: Seq<char>) -> nat
    decreases s.len(),
{
    if s.len() == 0 {
        0
    } else {
        utf8_len(s.drop_last()) + utf8_width(s.last())
    }
}

/// The file system kind a mount-table line names for a path: the third
/// word, when the line has three words and the path lies under the second.
pub open spec fn mount_entry(line: Seq<char>, path: Seq<char>) -> Option<Seq<char>> {
    let w = words_of(line);
    if w.len() >= 3 && path_starts_with(path, w[1]) {
        Some(w[2])
    } else {
        None
    }
}

/// Among the lines that name a kind for a path, the kind with the longest
/// text in bytes, the last one among equals (`max_by_key` on the kind's
/// length).
pub open spec fn longest_kind(lines: Seq<Seq<char>>, path: Seq<char>) -> Option<Seq<char>>
    decreases lines.len(),
{
    if lines.len() == 0 {
        None
    } else {
        let best = longest_kind(lines.drop_last(), path);
        match mount_entry(lines.last(), path) {
            None => best,
            Some(k) => match best {
                Some(b) => if utf8_len(b) <= utf8_len(k) {
                    Some(k)
                } else {
                    best
                },
                None => Some(k),
            },
        }
    }
}

/// The pieces of a text.
fn split_pieces(s: &Vec<char>, words: bool) -> (r: Vec<Vec<char>>)
    ensures
        chars_view(r@) == pieces_from(s@, 0, Seq::empty(), words),
{
    let mut out: Vec<Vec<char>> = Vec::new();
    let mut cur: Vec<char> = Vec::new();
    let mut i: usize = 0;
    assert(chars_view(out@) =~= Seq::<Seq<char>>::empty());
    assert(cur@ =~= Seq::<char>::empty());
    while i < s.len()
        invariant
            i <= s@.len(),
            chars_view(out@) + pieces_from(s@, i as int, cur@, words) == pieces_from(s@, 0, Seq::empty(), words),
        decreases s.len() - i,
    {
        let c = s[i];
        let sep = if words {
            is_white_space_char(c)
        } else {
            c == '/'
        };
        if sep {
            let ghost prev = chars_view(out@);
            let ghost old_cur = cur@;
            if cur.len() > 0 && (words || !(cur.len() == 1 && cur[0] == '.')) {
                assert(old_cur != seq!['.'] || words);
                out.push(cur);
                assert(chars_view(out@) =~= prev + piece(old_cur, words));
            } else {
                assert(cur.len() == 1 ==> cur@ =~= seq!['.']);
                assert(chars_view(out@) =~= prev + piece(old_cur, words));
            }
            cur = Vec::new();
            assert(cur@ =~= Seq::<char>::empty());
            assert(prev + piece(old_cur, words) + pieces_from(s@, i + 1, cur@, words) =~= prev + (piece(old_cur, words)
                + pieces_from(s@, i + 1, cur@, words)));
        } else {
            cur.push(c);
        }
        i += 1;
    }
    let ghost prev = chars_view(out@);
    let ghost old_cur = cur@;
    if cur.len() > 0 && (words || !(cur.len() == 1 && cur[0] == '.')) {
        out.push(cur);
        assert(chars_view(out@) =~= prev + piece(old_cur, words));
    } else {
        assert(cur.len() == 1 ==> cur@ =~= seq!['.']);
        assert(chars_view(out@) =~= prev + piece(old_cur, words));
    }
    out
}

/// Whether two texts are equal.
fn same_text(a: &Vec<char>, b: &Vec<char>) -> (r: bool)
    ensures
        r == (a@ == b@),
{
    let r = a.len() == b.len() && starts_with_chars(a, b);
    proof {
        if r {
            assert(a@ =~= b@) by {
                assert(a@.take(b@.len() as int) =~= a@);
            }
        }
    }
    r
}

/// The components of a path.
fn components(p: &Vec<char>) -> (r: Vec<Vec<char>>)
    ensures
        chars_view(r@) == components_of(p@),
{
    let mut start: Vec<Vec<char>> = Vec::new();
    if p.len() > 0 && p[0] == '/' {
        let mut root: Vec<char> = Vec::new();
        root.push('/');
        start.push(root);
    } else if (p.len() == 1 && p[0] == '.') || (p.len() >= 2 && p[0] == '.' && p[1] == '/') {
        let mut cur: Vec<char> = Vec::new();
        cur.push('.');
        start.push(cur);
        assert(p@.len() == 1 ==> p@ =~= seq!['.']);
    } else {
        assert(p@.len() == 1 ==> p@ != seq!['.']);
    }
    assert(chars_view(start@) =~= path_start(p@));
    let rest = split_pieces(p, false);
    let ghost first = chars_view(start@);
    let mut i: usize = 0;
    while i < rest.len()
        invariant
            i <= rest@.len(),
            chars_view(start@) == first + chars_view(rest@).take(i as int),
        decreases rest.len() - i,
    {
        let ghost prev = chars_view(start@);
        start.push(rest[i].clone());
        assert(chars_view(rest@).take(i + 1) =~= chars_view(rest@).take(i as int).push(rest@[i as int]@));
        assert(chars_view(start@) =~= prev.push(rest@[i as int]@));
        i += 1;
    }
    assert(chars_view(rest@).take(rest@.len() as int) =~= chars_view(rest@));
    start
}

/// Whether a path lies under a base path, component by component.
fn lies_under(path: &Vec<char>, base: &Vec<char>) -> (r: bool)
    ensures
        r == path_starts_with(path@, base@),
{
    let c = components(path);
    let b = components(base);
    if b.len() > c.len() {
        return false;
    }
    let mut i: usize = 0;
    while i < b.len()
        invariant
            chars_view(c@) == components_of(path@),
            chars_view(b@) == components_of(base@),
            b@.len() <= c@.len(),
            i <= b@.len(),
            forall|j: int| 0 <= j < i ==> chars_view(c@)[j] == chars_view(b@)[j],
        decreases b.len() - i,
    {
        assert(chars_view(c@)[i as int] == c@[i as int]@);
        assert(chars_view(b@)[i as int] == b@[i as int]@);
        if !same_text(&c[i], &b[i]) {
            assert(chars_view(c@).take(b@.len() as int)[i as int] != chars_view(b@)[i as int]);
            return false;
        }
        i += 1;
    }
    assert(chars_view(c@).take(b@.len() as int) =~= chars_view(b@));
    true
}

/// How many bytes UTF-8 takes for a text.
fn text_bytes(s: &Vec<char>) -> (n: u128)
    ensures
        n == utf8_len(s@),
{
    let mut n: u128 = 0;
    let mut i: usize = 0;
    assert(s@.take(0) =~= Seq::<char>::empty());
    while i < s.len()
        invariant
            i <= s@.len(),
            n == utf8_len(s@.take(i as int)),
            n <= 4 * i,
        decreases s.len() - i,
    {
        let c = s[i] as u32;
        let w: u128 = if c < 0x80 {
            1
        } else if c < 0x800 {
            2
        } else if c < 0x10000 {
            3
        } else {
            4
        };
        assert(s@.take(i + 1).drop_last() =~= s@.take(i as int));
        assert(s@.take(i + 1).last() == s@[i as int]);
        n = n + w;
        i += 1;
    }
    assert(s@.take(s@.len() as int) =~= s@);
    n
}

/// The file system kind a mount-table line names for a path.
fn mount_entry_of(line: &Vec<char>, path: &Vec<char>) -> (r: Option<Vec<char>>)
    ensures
        match r {
            Some(k) => mount_entry(line@, path@) == Some(k@),
            None => mount_entry(line@, path@) is None,
        },
{
    let w = split_pieces(line, true);
    proof {
        if w@.len() >= 3 {
            assert(words_of(line@)[1] == w@[1]@);
            assert(words_of(line@)[2] == w@[2]@);
        }
    }
    if w.len() >= 3 && lies_under(path, &w[1]) {
        Some(w[2].clone())
    } else {
        None
    }
}

/// The file system kind of the mount that holds a path, by a mount table
/// (`/proc/mounts`): see [`longest_kind`].
pub fn mounted_filesystem(mounts: &str, path: &str) -> (r: Option<String>)
    ensures
        match r {
            Some(k) => longest_kind(lines_spec(mounts@), path@) == Some(k@),
            None => longest_kind(lines_spec(mounts@), path@) is None,
        },
{
    let lines = lines_of(&chars_of(mounts));
    let p = chars_of(path);
    let ghost lv = chars_view(lines@);
    let mut best: Option<Vec<char>> = None;
    let mut best_len: u128 = 0;
    let mut i: usize = 0;
    assert(lv.take(0) =~= Seq::<Seq<char>>::empty());
    while i < lines.len()
        invariant
            i <= lines@.len(),
            lv == chars_view(lines@),
            p@ == path@,
            match best {
                Some(b) => longest_kind(lv.take(i as int), path@) == Some(b@) && best_len == utf8_len(b@),
                None => longest_kind(lv.take(i as int), path@) is None,
            },
        decreases lines.len() - i,
    {
        assert(lv.take(i + 1).drop_last() =~= lv.take(i as int));
        assert(lv.take(i + 1).last() == lines@[i as int]@);
        match mount_entry_of(&lines[i], &p) {
            None => {},
            Some(k) => {
                let k_len = text_bytes(&k);
                if best.is_none() || best_len <= k_len {
                    best = Some(k);
                    best_len = k_len;
                }
            },
        }
        i += 1;
    }
    assert(lv.take(lv.len() as int) =~= lv);
    match best {
        Some(b) => Some(string_of(&b)),
        None => None,
    }
}

/// Whether replacing a file by renaming is reliable where a path lies: an
/// unknown path is unknown; otherwise the kind of the mount that holds its
/// canonical form decides (see [`classify_spec`]), unknown without a mount
/// table or a canonical form.
pub open spec fn reliability_spec(exists: bool, mounts: Option<Seq<char>>, canonical: Option<Seq<char>>) -> FilesystemReliability {
    if !exists {
        FilesystemReliability::Unknown
    } else {
        match (mounts, canonical) {
            (Some(m), Some(c)) => classify_spec(longest_kind(lines_spec(m), c)),
            _ => FilesystemReliability::Unknown,
        }
    }
}

/// Whether replacing a file by renaming is reliable where a path lies,
/// given whether it exists, the mount table and its canonical form.
pub fn filesystem_reliability(exists: bool, mounts: Option<&str>, canonical: Option<&str>) -> (r: FilesystemReliability)
    ensures
        r == reliability_spec(exists, opt_str_view(mounts), opt_str_view(canonical)),
{
    if !exists {
        return FilesystemReliability::Unknown;
    }
    match (mounts, canonical) {
        (Some(m), Some(c)) => {
            let kind = mounted_filesystem(m, c);
            match kind {
                Some(k) => classify_filesystem(Some(k.as_str())),
                None => classify_filesystem(None),
            }
        },
        _ => FilesystemReliability::Unknown,
    }
}

} // verus!
