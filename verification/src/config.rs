//! The configuration file and what overrides it.

use vstd::prelude::*;

use crate::outside::hex_text;
use crate::outside::is_hex;
use crate::outside::simple_uuid;
use crate::paths::join;
use crate::paths::joined_path;
use crate::text::after_prefix;
use crate::text::begins_with;
use crate::text::chars_of;
use crate::text::clone_texts;
use crate::text::concat3;
use crate::text::expanded;
use crate::text::has_char;
use crate::text::is_space;
use crate::text::joined;
use crate::text::leading_spaces;
use crate::text::lemma_trimmed_start;
use crate::text::lemma_trimmed_start_is_an_end;
use crate::text::matches_at;
use crate::text::parts;
use crate::text::slice_text;
use crate::text::split;
use crate::text::texts;
use crate::text::trimmed_start;

verus! {

/// How long task logs are kept by default, in seconds.
pub const DEFAULT_TASK_LOG_RETENTION_SECS: u64 = 7200;

/// The configuration file's name in the configuration directory.
pub const CONFIG_FILE: &'static str = "config.yaml";

/// How much of the host the tools may touch.
#[derive(Debug, Clone, Copy, PartialEq, Eq, Structural)]
pub enum SecurityMode {
    /// Everything that the operating system allows.
    Full,
    /// Only what the sandbox lets through.
    Safe,
    /// Reads only.
    Readonly,
}

/// The security settings.
#[derive(Debug, Clone, Copy, PartialEq, Eq, Structural)]
pub struct SecurityConfig {
    pub mode: SecurityMode,
    pub network: bool,
    pub protect_secrets: bool,
}

/// The configuration.
#[derive(Debug)]
pub struct PcConfig {
    pub workspace: String,
    pub oauth_password: Option<String>,
    pub public_url: Option<String>,
    pub production: bool,
    pub allowed_redirect_hosts: Vec<String>,
    pub task_log_retention_secs: u64,
    pub security: SecurityConfig,
}

/// Values from the command line or the environment that take precedence over the
/// configuration file.
#[derive(Debug)]
pub struct ConfigOverrides {
    pub workspace: Option<String>,
    pub oauth_password: Option<String>,
    pub public_url: Option<String>,
    pub production: Option<bool>,
    pub allowed_redirect_hosts: Option<Vec<String>>,
    pub task_log_retention_secs: Option<u64>,
    pub security_mode: Option<SecurityMode>,
    pub security_network: Option<bool>,
    pub security_protect_secrets: Option<bool>,
}

/// A configuration as a mathematical value.
pub struct Settings {
    pub workspace: Seq<char>,
    pub oauth_password: Option<Seq<char>>,
    pub public_url: Option<Seq<char>>,
    pub production: bool,
    pub allowed_redirect_hosts: Seq<Seq<char>>,
    pub task_log_retention_secs: u64,
    pub security: SecurityConfig,
}

impl View for PcConfig {
    type V = Settings;

    open spec fn view(&self) -> Settings {
        Settings {
            workspace: self.workspace@,
            oauth_password: self.oauth_password.deep_view(),
            public_url: self.public_url.deep_view(),
            production: self.production,
            allowed_redirect_hosts: texts(self.allowed_redirect_hosts@),
            task_log_retention_secs: self.task_log_retention_secs,
            security: self.security,
        }
    }
}

impl Default for SecurityMode {
    /// Full access to the host.
    fn default() -> (r: Self)
        ensures
            r == SecurityMode::Full,
    {
        SecurityMode::Full
    }
}

/// The default security settings: full access, network on, secrets protected.
pub open spec fn default_security() -> SecurityConfig {
    SecurityConfig { mode: SecurityMode::Full, network: true, protect_secrets: true }
}

impl Default for SecurityConfig {
    fn default() -> (r: Self)
        ensures
            r == default_security(),
    {
        SecurityConfig { mode: SecurityMode::Full, network: true, protect_secrets: true }
    }
}

/// The default configuration.
pub open spec fn default_settings() -> Settings {
    Settings {
        workspace: "."@,
        oauth_password: None,
        public_url: None,
        production: false,
        allowed_redirect_hosts: Seq::empty(),
        task_log_retention_secs: DEFAULT_TASK_LOG_RETENTION_SECS,
        security: default_security(),
    }
}

impl Default for PcConfig {
    fn default() -> (r: Self)
        ensures
            r@ == default_settings(),
    {
        let r = PcConfig {
            workspace: ".".to_owned(),
            oauth_password: None,
            public_url: None,
            production: false,
            allowed_redirect_hosts: Vec::new(),
            task_log_retention_secs: DEFAULT_TASK_LOG_RETENTION_SECS,
            security: SecurityConfig::default(),
        };
        assert(texts(r.allowed_redirect_hosts@) =~= Seq::empty());
        r
    }
}

/// No overrides.
pub open spec fn no_overrides(o: ConfigOverrides) -> bool {
    &&& o.workspace is None
    &&& o.oauth_password is None
    &&& o.public_url is None
    &&& o.production is None
    &&& o.allowed_redirect_hosts is None
    &&& o.task_log_retention_secs is None
    &&& o.security_mode is None
    &&& o.security_network is None
    &&& o.security_protect_secrets is None
}

impl Default for ConfigOverrides {
    fn default() -> (r: Self)
        ensures
            no_overrides(r),
    {
        ConfigOverrides {
            workspace: None,
            oauth_password: None,
            public_url: None,
            production: None,
            allowed_redirect_hosts: None,
            task_log_retention_secs: None,
            security_mode: None,
            security_network: None,
            security_protect_secrets: None,
        }
    }
}

/// The value that overrides, where there is one, else the other.
pub open spec fn or_else<T>(over: Option<T>, base: T) -> T {
    match over {
        Some(x) => x,
        None => base,
    }
}

/// The configuration with the overrides in place of its own values.
pub open spec fn overridden(c: Settings, o: ConfigOverrides) -> Settings {
    Settings {
        workspace: or_else(o.workspace.deep_view(), c.workspace),
        oauth_password: match o.oauth_password.deep_view() {
            Some(p) => Some(p),
            None => c.oauth_password,
        },
        public_url: match o.public_url.deep_view() {
            Some(u) => Some(u),
            None => c.public_url,
        },
        production: or_else(o.production, c.production),
        allowed_redirect_hosts: match o.allowed_redirect_hosts {
            Some(hosts) => texts(hosts@),
            None => c.allowed_redirect_hosts,
        },
        task_log_retention_secs: or_else(o.task_log_retention_secs, c.task_log_retention_secs),
        security: SecurityConfig {
            mode: or_else(o.security_mode, c.security.mode),
            network: or_else(o.security_network, c.security.network),
            protect_secrets: or_else(o.security_protect_secrets, c.security.protect_secrets),
        },
    }
}

/// The value that overrides, where there is one, else the other.
fn pick<T: Copy>(over: Option<T>, base: T) -> (r: T)
    ensures
        r == or_else(over, base),
{
    match over {
        Some(x) => x,
        None => base,
    }
}

/// Replaces an optional text where there is one to replace it with.
fn pick_text(text: &mut Option<String>, over: &Option<String>)
    ensures
        final(text).deep_view() == (match over.deep_view() {
            Some(s) => Some(s),
            None => old(text).deep_view(),
        }),
{
    if let Some(s) = over {
        *text = Some(s.clone());
    }
}

/// Puts the overrides in place of the configuration's own values.
pub fn apply_overrides(config: &mut PcConfig, overrides: &ConfigOverrides)
    ensures
        final(config)@ == overridden(old(config)@, *overrides),
{
    if let Some(workspace) = &overrides.workspace {
        config.workspace = workspace.clone();
    }
    pick_text(&mut config.oauth_password, &overrides.oauth_password);
    pick_text(&mut config.public_url, &overrides.public_url);
    if let Some(hosts) = &overrides.allowed_redirect_hosts {
        config.allowed_redirect_hosts = clone_texts(hosts);
    }
    config.production = pick(overrides.production, config.production);
    config.task_log_retention_secs = pick(
        overrides.task_log_retention_secs,
        config.task_log_retention_secs,
    );
    config.security.mode = pick(overrides.security_mode, config.security.mode);
    config.security.network = pick(overrides.security_network, config.security.network);
    config.security.protect_secrets = pick(
        overrides.security_protect_secrets,
        config.security.protect_secrets,
    );
}

/// What the configuration directory cannot be found without.
pub const NO_HOME: &'static str =
    "cannot determine pc config directory: set PC_HOME, HOME, or USERPROFILE";

/// The value of an environment variable, where it is set and not empty.
pub open spec fn set_value(v: Option<Seq<char>>) -> Option<Seq<char>> {
    match v {
        Some(s) => if s.len() > 0 {
            Some(s)
        } else {
            None
        },
        None => None,
    }
}

/// The configuration directory in a user's home directory.
pub open spec fn config_dir_in(home: Seq<char>) -> Seq<char> {
    joined_path(joined_path(home, ".config"@), "pc"@)
}

/// The configuration directory in a user's home directory.
fn config_dir(home: &str) -> (r: String)
    ensures
        r@ == config_dir_in(home@),
{
    let config = join(home, ".config");
    join(config.as_str(), "pc")
}

/// The default configuration directory, from the values of the environment variables `HOME`
/// and `USERPROFILE`.
pub fn default_home(home: &Option<String>, user_profile: &Option<String>) -> (r: Result<
    String,
    String,
>)
    ensures
        match (set_value(home.deep_view()), set_value(user_profile.deep_view())) {
            (Some(h), _) => r matches Ok(dir) && dir@ == config_dir_in(h),
            (None, Some(p)) => r matches Ok(dir) && dir@ == config_dir_in(p),
            (None, None) => r matches Err(e) && e@ == NO_HOME@,
        },
{
    if let Some(h) = home {
        if !h.as_str().is_empty() {
            return Ok(config_dir(h.as_str()));
        }
    }
    if let Some(p) = user_profile {
        if !p.as_str().is_empty() {
            return Ok(config_dir(p.as_str()));
        }
    }
    Err(NO_HOME.to_owned())
}

/// The configuration directory: the given one, else the default one, from the values of the
/// environment variables `HOME` and `USERPROFILE`.
pub fn config_home(
    explicit: &Option<String>,
    home: &Option<String>,
    user_profile: &Option<String>,
) -> (r: Result<String, String>)
    ensures
        match (explicit, set_value(home.deep_view()), set_value(user_profile.deep_view())) {
            (Some(dir), _, _) => r matches Ok(p) && p@ == dir@,
            (None, Some(h), _) => r matches Ok(p) && p@ == config_dir_in(h),
            (None, None, Some(u)) => r matches Ok(p) && p@ == config_dir_in(u),
            (None, None, None) => r matches Err(m) && m@ == NO_HOME@,
        },
{
    match explicit {
        Some(dir) => Ok(dir.clone()),
        None => default_home(home, user_profile),
    }
}

// ---------------------------------------------------------------------------------------
// Windows paths in the configuration file

/// The last position at which the character stands.
pub open spec fn last_place(s: Seq<char>, c: char) -> Option<int>
    decreases s.len(),
{
    if s.len() == 0 {
        None
    } else if s.last() == c {
        Some(s.len() - 1)
    } else {
        last_place(s.drop_last(), c)
    }
}

/// Whether the text starts as a Windows path does: with a drive letter, a colon and a
/// backslash, or with two backslashes.
pub open spec fn windows_path(s: Seq<char>) -> bool {
    ||| s.len() >= 3 && is_letter(s[0]) && s[1] == ':' && s[2] == '\\'
    ||| s.len() >= 2 && s[0] == '\\' && s[1] == '\\'
}

/// Whether the character is an ASCII letter.
pub open spec fn is_letter(c: char) -> bool {
    ('a' <= c && c <= 'z') || ('A' <= c && c <= 'Z')
}

/// Where the value of a `workspace` key begins, where the line is one.
pub open spec fn workspace_value(line: Seq<char>) -> Option<int> {
    match after_prefix(trimmed_start(line), "workspace:"@) {
        Some(rest) => Some(line.len() - trimmed_start(rest).len()),
        None => None,
    }
}

/// The positions of the two quotes around the value of a `workspace` key.
pub open spec fn quotes(line: Seq<char>) -> Option<(int, int)> {
    match workspace_value(line) {
        Some(open) => if open < line.len() && line[open] == '"' {
            match last_place(line.skip(open + 1), '"') {
                Some(close) => Some((open, open + 1 + close)),
                None => None,
            }
        } else {
            None
        },
        None => None,
    }
}

/// Whether the line gives the workspace as a Windows path in double quotes, in which a
/// backslash would start an escape.
pub open spec fn needs_repair(line: Seq<char>) -> bool {
    match quotes(line) {
        Some((open, close)) => {
            let inner = line.subrange(open + 1, close);
            windows_path(inner) && inner.contains('\\')
        },
        None => false,
    }
}

/// Whether the character stands at all positions from `a` up to `b` and at neither of their
/// neighbours.
pub open spec fn is_run(s: Seq<char>, c: char, a: int, b: int) -> bool {
    &&& 0 <= a < b <= s.len()
    &&& forall|i: int| a <= i < b ==> #[trigger] s[i] == c
    &&& a == 0 || s[a - 1] != c
    &&& b == s.len() || s[b] != c
}

/// Whether the character stands in a run of odd length.
pub open spec fn has_odd_run(s: Seq<char>, c: char) -> bool {
    exists|a: int, b: int| #[trigger] is_run(s, c, a, b) && (b - a) % 2 == 1
}

/// Whether the line gives the workspace as a Windows path in double quotes whose backslashes
/// are not all doubled: read as escapes, they would give another path.
pub open spec fn line_is_misread(line: Seq<char>) -> bool {
    needs_repair(line) && (quotes(line) matches Some((open, close)) && has_odd_run(
        line.subrange(open + 1, close),
        '\\',
    ))
}

/// Whether one of the lines would be misread.
pub open spec fn any_is_misread(lines: Seq<Seq<char>>) -> bool {
    exists|i: int| 0 <= i < lines.len() && line_is_misread(#[trigger] lines[i])
}

/// One character, a backslash doubled.
pub open spec fn doubled_char(c: char) -> Seq<char> {
    if c == '\\' {
        seq!['\\', '\\']
    } else {
        seq![c]
    }
}

/// The text with every backslash doubled.
pub open spec fn doubled(s: Seq<char>) -> Seq<char> {
    expanded(s, |c: char| doubled_char(c))
}

/// The line with the backslashes of its workspace path doubled, where it needs that.
pub open spec fn repaired_line(line: Seq<char>) -> Seq<char> {
    match quotes(line) {
        Some((open, close)) => if needs_repair(line) {
            line.take(open + 1) + doubled(line.subrange(open + 1, close)) + line.skip(close)
        } else {
            line
        },
        None => line,
    }
}

/// Whether one of the lines needs repair.
pub open spec fn any_needs_repair(lines: Seq<Seq<char>>) -> bool {
    exists|i: int| 0 <= i < lines.len() && needs_repair(#[trigger] lines[i])
}

/// The text with every line repaired.
pub open spec fn repaired(text: Seq<char>) -> Seq<char> {
    joined(parts(text, '\n').map_values(|l: Seq<char>| repaired_line(l)), "\n"@)
}

/// Whether the text starts as a Windows path does.
pub fn looks_like_windows_path(value: &str) -> (r: bool)
    ensures
        r == windows_path(value@),
{
    let v = chars_of(value);
    (v.len() >= 3 && letter(v[0]) && v[1] == ':' && v[2] == '\\') || (v.len() >= 2 && v[0] == '\\'
        && v[1] == '\\')
}

/// Whether the character is an ASCII letter.
fn letter(c: char) -> (r: bool)
    ensures
        r == is_letter(c),
{
    ('a' <= c && c <= 'z') || ('A' <= c && c <= 'Z')
}

/// Appends the characters from `from` up to `to`, every backslash doubled.
fn push_doubled(out: &mut String, v: &Vec<char>, from: usize, to: usize)
    requires
        from <= to <= v@.len(),
    ensures
        final(out)@ == old(out)@ + doubled(v@.subrange(from as int, to as int)),
{
    let ghost f = |c: char| doubled_char(c);
    let mut i: usize = from;
    assert(v@.subrange(from as int, from as int) =~= Seq::<char>::empty());
    assert(out@ =~= old(out)@ + doubled(v@.subrange(from as int, i as int)));
    while i < to
        invariant
            from <= i <= to <= v@.len(),
            f == (|c: char| doubled_char(c)),
            out@ == old(out)@ + expanded(v@.subrange(from as int, i as int), f),
        decreases to - i,
    {
        let c = v[i];
        let ghost before = v@.subrange(from as int, i as int);
        if c == '\\' {
            out.push('\\');
            out.push('\\');
        } else {
            out.push(c);
        }
        i += 1;
        proof {
            crate::text::lemma_expanded_push(before, c, f);
            assert(v@.subrange(from as int, i as int) =~= before.push(c));
            assert(out@ =~= old(out)@ + (expanded(before, f) + doubled_char(c)));
        }
    }
}

/// The last position from `from` on at which a double quote stands.
fn last_quote(v: &Vec<char>, from: usize) -> (r: Option<usize>)
    requires
        from <= v@.len(),
    ensures
        match r {
            Some(i) => from <= i < v@.len() && last_place(v@.skip(from as int), '"') == Some(
                i - from,
            ),
            None => last_place(v@.skip(from as int), '"') is None,
        },
{
    let ghost tail = v@.skip(from as int);
    let mut i: usize = v.len();
    assert(tail.take(i - from) =~= tail);
    while i > from
        invariant
            from <= i <= v@.len(),
            tail == v@.skip(from as int),
            last_place(tail, '"') == last_place(tail.take(i - from), '"'),
        decreases i,
    {
        assert(tail.take(i - from).last() == v@[i - 1]);
        if v[i - 1] == '"' {
            return Some(i - 1);
        }
        assert(tail.take(i - from).drop_last() =~= tail.take(i - 1 - from));
        i -= 1;
    }
    None
}

/// The positions of the two quotes around the workspace path, where the line needs repair.
fn path_quotes(v: &Vec<char>) -> (r: Option<(usize, usize)>)
    ensures
        r is Some <==> needs_repair(v@),
        r matches Some((open, close)) ==> open < close < v@.len() && quotes(v@) == Some(
            (open as int, close as int),
        ),
{
    let key = chars_of("workspace:");
    let total: usize = v.len();
    let indent = leading_spaces(v, 0);
    assert(v@.skip(0) =~= v@);
    assert(trimmed_start(v@) == v@.skip(indent as int));
    if !matches_at(v, &key, indent) {
        assert(!begins_with(v@.skip(indent as int), key@)) by {
            if begins_with(v@.skip(indent as int), key@) {
                assert(v@.subrange(indent as int, indent + key@.len()) =~= v@.skip(
                    indent as int,
                ).take(key@.len() as int));
            }
        }
        return None;
    }
    assert(v@.skip(indent as int).take(key@.len() as int) =~= v@.subrange(
        indent as int,
        indent + key@.len(),
    ));
    assert(indent + key@.len() <= total);
    let after: usize = indent + key.len();
    assert(v@.skip(indent as int).skip(key@.len() as int) =~= v@.skip(after as int));
    let open = leading_spaces(v, after);
    assert(workspace_value(v@) == Some(open as int));
    if open == v.len() || v[open] != '"' {
        return None;
    }
    let close = match last_quote(v, open + 1) {
        Some(close) => close,
        None => {
            return None;
        },
    };
    assert(quotes(v@) == Some((open as int, close as int)));
    let inner = slice_text(v, open + 1, close);
    if looks_like_windows_path(inner.as_str()) && has_char(inner.as_str(), '\\') {
        Some((open, close))
    } else {
        None
    }
}

/// The repaired line, where the line needs repair.
fn repair_line(line: &str) -> (r: Option<String>)
    ensures
        r is Some <==> needs_repair(line@),
        r matches Some(s) ==> s@ == repaired_line(line@),
{
    let v = chars_of(line);
    let (open, close) = match path_quotes(&v) {
        Some(found) => found,
        None => {
            return None;
        },
    };
    let mut out = slice_text(&v, 0, open + 1);
    push_doubled(&mut out, &v, open + 1, close);
    let rest = slice_text(&v, close, v.len());
    out.push_str(rest.as_str());
    assert(v@.subrange(0, open + 1) =~= v@.take(open + 1));
    assert(v@.subrange(close as int, v@.len() as int) =~= v@.skip(close as int));
    Some(out)
}

/// Whether the character stands in a run of odd length among those from `from` up to `to`.
fn odd_run(v: &Vec<char>, from: usize, to: usize, c: char) -> (r: bool)
    requires
        from <= to <= v@.len(),
    ensures
        r == has_odd_run(v@.subrange(from as int, to as int), c),
{
    let ghost s = v@.subrange(from as int, to as int);
    let mut run: usize = 0;
    let mut i: usize = from;
    while i < to
        invariant
            from <= i <= to <= v@.len(),
            s == v@.subrange(from as int, to as int),
            run <= i - from,
            forall|k: int| i - from - run <= k < i - from ==> #[trigger] s[k] == c,
            i - from - run == 0 || s[i - from - run - 1] != c,
            forall|a: int, b: int|
                b < i - from && #[trigger] is_run(s, c, a, b) ==> (b - a) % 2 == 0,
        decreases to - i,
    {
        let ghost k = i - from;
        assert(s[k] == v@[i as int]);
        if v[i] == c {
            assert(forall|a: int, b: int| b == k ==> !#[trigger] is_run(s, c, a, b));
            run += 1;
        } else {
            if run > 0 {
                assert(is_run(s, c, k - run, k));
                if run % 2 == 1 {
                    return true;
                }
            }
            assert forall|a: int, b: int| b == k && #[trigger] is_run(s, c, a, b) implies (b - a)
                % 2 == 0 by {
                assert(s[b - 1] == c);
                assert(run > 0);
                if a < k - run {
                    assert(s[k - run - 1] == c);
                } else if a > k - run {
                    assert(s[a - 1] == c);
                }
            }
            run = 0;
        }
        i += 1;
    }
    let ghost k = i - from;
    if run > 0 {
        assert(is_run(s, c, k - run, k));
    }
    if run % 2 == 1 {
        return true;
    }
    assert forall|a: int, b: int| #[trigger] is_run(s, c, a, b) implies (b - a) % 2 == 0 by {
        if b == k {
            assert(s[b - 1] == c);
            assert(run > 0);
            if a < k - run {
                assert(s[k - run - 1] == c);
            } else if a > k - run {
                assert(s[a - 1] == c);
            }
        }
    }
    false
}

/// Once every backslash of a path has been doubled, none is misread any more.
pub proof fn lemma_doubled_path_is_not_misread(path: Seq<char>)
    ensures
        !has_odd_run(doubled(path), '\\'),
    decreases path.len(),
{
    if path.len() > 0 {
        let init = path.drop_last();
        let c = path.last();
        let d = doubled(init);
        lemma_doubled_path_is_not_misread(init);
        crate::text::lemma_expanded_push(init, c, |c: char| doubled_char(c));
        assert(init.push(c) =~= path);
        assert(doubled(path) == d + doubled_char(c));
        assert forall|a: int, b: int| #[trigger] is_run(doubled(path), '\\', a, b) implies (b - a)
            % 2 == 0 by {
            let all = doubled(path);
            assert(all[b - 1] == '\\');
            let end = if b <= d.len() {
                b
            } else {
                d.len() as int
            };
            if a < d.len() {
                assert(is_run(d, '\\', a, end)) by {
                    assert forall|i: int| a <= i < end implies #[trigger] d[i] == '\\' by {
                        assert(all[i] == d[i]);
                    }
                    assert(a == 0 || all[a - 1] == d[a - 1]);
                    assert(end == d.len() || all[end] == d[end]);
                }
            }
            if c == '\\' {
                assert(all[d.len() as int] == '\\' && all[d.len() as int + 1] == '\\');
            }
        }
    }
}

/// Whether the configuration text gives the workspace as a Windows path in double quotes whose
/// backslashes are not all doubled. Such a text can be read without an error and still give
/// another path than the one that was meant.
pub fn misreads_backslashes(text: &str) -> (r: bool)
    ensures
        r == any_is_misread(parts(text@, '\n')),
{
    let all = split(text, '\n');
    let ghost ls = texts(all@);
    let mut i: usize = 0;
    while i < all.len()
        invariant
            i <= all@.len(),
            ls == texts(all@),
            ls == parts(text@, '\n'),
            forall|j: int| 0 <= j < i ==> !line_is_misread(#[trigger] ls[j]),
        decreases all@.len() - i,
    {
        let v = chars_of(all[i].as_str());
        assert(ls[i as int] == v@);
        if let Some((open, close)) = path_quotes(&v) {
            if odd_run(&v, open + 1, close, '\\') {
                assert(line_is_misread(ls[i as int]));
                return true;
            }
        }
        i += 1;
    }
    false
}

/// The configuration text with the backslashes of a double-quoted Windows workspace path
/// doubled, where it holds one.
pub fn repair_windows_workspace_yaml(text: &str) -> (r: Option<String>)
    ensures
        r is Some <==> any_needs_repair(parts(text@, '\n')),
        r matches Some(s) ==> s@ == repaired(text@),
{
    let all = split(text, '\n');
    let ghost f = |l: Seq<char>| repaired_line(l);
    let ghost ls = texts(all@);
    let mut changed = false;
    let mut out = String::new();
    let mut i: usize = 0;
    assert(ls.take(0).map_values(f) =~= Seq::empty());
    while i < all.len()
        invariant
            i <= all@.len(),
            ls == texts(all@),
            f == (|l: Seq<char>| repaired_line(l)),
            out@ == joined(ls.take(i as int).map_values(f), "\n"@),
            changed <==> exists|j: int| 0 <= j < i && needs_repair(#[trigger] ls[j]),
        decreases all@.len() - i,
    {
        let ghost before = ls.take(i as int).map_values(f);
        if i > 0 {
            out.push('\n');
        }
        let line = all[i].as_str();
        assert(ls[i as int] == line@);
        match repair_line(line) {
            Some(better) => {
                changed = true;
                out.push_str(better.as_str());
            },
            None => {
                out.push_str(line);
            },
        }
        proof {
            let now = ls.take(i + 1).map_values(f);
            assert(now.drop_last() =~= before);
            assert(now.last() == repaired_line(line@));
            reveal_strlit("\n");
            if i == 0 {
                assert(out@ =~= now[0]);
            } else {
                assert(out@ =~= joined(before, "\n"@) + "\n"@ + now.last());
            }
            if changed {
                assert(exists|j: int| 0 <= j < i + 1 && needs_repair(#[trigger] ls[j]));
            }
        }
        i += 1;
    }
    assert(ls.take(ls.len() as int) =~= ls);
    if changed {
        Some(out)
    } else {
        None
    }
}

// ---------------------------------------------------------------------------------------
// Loading

/// The configuration file in the configuration directory.
pub fn config_path(home: &str) -> (r: String)
    ensures
        r@ == joined_path(home@, CONFIG_FILE@),
{
    join(home, CONFIG_FILE)
}

/// The directory for the sandbox's own files, in the configuration directory.
pub fn sandbox_path(home: &str) -> (r: String)
    ensures
        r@ == joined_path(home@, "tmp"@),
{
    join(home, "tmp")
}

/// The database in the configuration directory.
pub fn database_path(home: &str) -> (r: String)
    ensures
        r@ == joined_path(home@, "pc.db"@),
{
    join(home, "pc.db")
}

/// What comes of a configuration file at `path`: the configuration that was read from it,
/// else the one that was read from its repaired text, else the reason why it could not be
/// read. Where the text is misread, the one from the repaired text comes first.
pub fn parse_config(
    first: Result<PcConfig, String>,
    from_repaired: Option<PcConfig>,
    misread: bool,
    path: &str,
) -> (r: Result<PcConfig, String>)
    ensures
        misread && from_repaired is Some ==> r == Ok::<PcConfig, String>(from_repaired->0),
        !misread || from_repaired is None ==> match first {
            Ok(c) => r == Ok::<PcConfig, String>(c),
            Err(e) => match from_repaired {
                Some(c) => r == Ok::<PcConfig, String>(c),
                None => r matches Err(m) && m@ == "parse "@ + path@ + ": "@ + e@,
            },
        },
{
    if misread {
        if let Some(config) = from_repaired {
            return Ok(config);
        }
        return match first {
            Ok(config) => Ok(config),
            Err(primary) => Err(parse_error(path, primary)),
        };
    }
    match first {
        Ok(config) => Ok(config),
        Err(primary) => match from_repaired {
            Some(config) => Ok(config),
            None => Err(parse_error(path, primary)),
        },
    }
}

/// The message for a configuration file that could not be read.
fn parse_error(path: &str, reason: String) -> (r: String)
    ensures
        r@ == "parse "@ + path@ + ": "@ + reason@,
{
    let mut message = concat3("parse ", path, ": ");
    message.push_str(reason.as_str());
    message
}

/// A password of 64 random hexadecimal digits.
pub fn generate_oauth_password() -> (r: String)
    ensures
        hex_text(r@, 64),
{
    let mut out = simple_uuid();
    let ghost first = out@;
    let rest = simple_uuid();
    out.push_str(rest.as_str());
    assert forall|i: int| 0 <= i < out@.len() implies is_hex(#[trigger] out@[i]) by {
        if i < 32 {
            assert(out@[i] == first[i]);
        } else {
            assert(out@[i] == rest@[i - 32]);
        }
    }
    out
}

/// The configuration in the file, or the default where there is no file.
pub open spec fn file_settings(existing: Option<PcConfig>) -> Settings {
    match existing {
        Some(c) => c@,
        None => default_settings(),
    }
}

/// Whether a password is missing.
pub open spec fn lacks_password(c: Settings) -> bool {
    match c.oauth_password {
        Some(p) => p.len() == 0,
        None => true,
    }
}

/// The configuration to run with, and the one to write to the file, where there is something
/// to write. Overrides hold for this run alone: a file that is there gets no more than the
/// given password, in place of a missing one. Where there is no file, it is created with the
/// configuration to run with.
pub open spec fn settled(
    existing: Option<PcConfig>,
    overrides: ConfigOverrides,
    password: Seq<char>,
) -> (Settings, Option<Settings>) {
    let c = overridden(file_settings(existing), overrides);
    let run = if lacks_password(c) {
        Settings { oauth_password: Some(password), ..c }
    } else {
        c
    };
    let written = if existing is None {
        Some(run)
    } else if lacks_password(c) {
        Some(Settings { oauth_password: Some(password), ..file_settings(existing) })
    } else {
        None
    };
    (run, written)
}

/// A configuration to run with and, where there is one, a configuration to write.
pub open spec fn settled_view(r: (PcConfig, Option<PcConfig>)) -> (Settings, Option<Settings>) {
    (
        r.0@,
        match r.1 {
            Some(c) => Some(c@),
            None => None,
        },
    )
}

/// A second copy of an optional text.
fn copy_text(text: &Option<String>) -> (r: Option<String>)
    ensures
        r.deep_view() == text.deep_view(),
{
    match text {
        Some(t) => Some(t.clone()),
        None => None,
    }
}

impl PcConfig {
    /// A second copy of the configuration.
    fn copy(&self) -> (r: PcConfig)
        ensures
            r@ == self@,
    {
        PcConfig {
            workspace: self.workspace.clone(),
            oauth_password: copy_text(&self.oauth_password),
            public_url: copy_text(&self.public_url),
            production: self.production,
            allowed_redirect_hosts: clone_texts(&self.allowed_redirect_hosts),
            task_log_retention_secs: self.task_log_retention_secs,
            security: self.security,
        }
    }
}

/// The configuration to run with, given what the file holds, the overrides and a password to
/// put in for a missing one; and the configuration to write to the file, where there is
/// something to write.
pub fn settle(existing: Option<PcConfig>, overrides: &ConfigOverrides, password: String) -> (r: (
    PcConfig,
    Option<PcConfig>,
))
    ensures
        settled_view(r) == settled(existing, *overrides, password@),
{
    let created = existing.is_none();
    let mut file = match existing {
        Some(config) => config,
        None => PcConfig::default(),
    };
    let mut config = file.copy();
    apply_overrides(&mut config, overrides);
    let missing = match &config.oauth_password {
        Some(p) => p.as_str().is_empty(),
        None => true,
    };
    if missing {
        file.oauth_password = Some(password.clone());
        config.oauth_password = Some(password);
    }
    if created {
        let written = config.copy();
        (config, Some(written))
    } else if missing {
        (config, Some(file))
    } else {
        (config, None)
    }
}

/// The configuration to run with, given what the file holds and the overrides, with a random
/// password where there is none; and the configuration to write to the file, where there is
/// something to write.
pub fn load_or_create(existing: Option<PcConfig>, overrides: &ConfigOverrides) -> (r: (
    PcConfig,
    Option<PcConfig>,
))
    ensures
        exists|p: Seq<char>|
            hex_text(p, 64) && settled_view(r) == #[trigger] settled(existing, *overrides, p),
{
    let password = generate_oauth_password();
    let ghost p = password@;
    let r = settle(existing, overrides, password);
    assert(hex_text(p, 64) && settled_view(r) == settled(existing, *overrides, p));
    r
}

/// Without overrides a configuration stays as it is.
pub proof fn lemma_no_overrides(c: Settings, o: ConfigOverrides)
    requires
        no_overrides(o),
    ensures
        overridden(c, o) == c,
{
}

/// What an override sets does not depend on the configuration, and overriding once more
/// changes nothing.
pub proof fn lemma_overrides_stick(c: Settings, o: ConfigOverrides)
    ensures
        overridden(overridden(c, o), o) == overridden(c, o),
{
}

/// pc never runs without a password. Where the overrides do not set an empty one, what was
/// written needs no further writing when it is read back, and gives the same configuration to
/// run with.
pub proof fn lemma_settled(
    existing: Option<PcConfig>,
    overrides: ConfigOverrides,
    password: Seq<char>,
    again: PcConfig,
    other: Seq<char>,
)
    requires
        password.len() > 0,
    ensures
        !lacks_password(settled(existing, overrides, password).0),
        settled(existing, overrides, password).1 == Some(again@)
            && overrides.oauth_password.deep_view() != Some(Seq::<char>::empty()) ==> settled(
            Some(again),
            overrides,
            other,
        ) == (settled(existing, overrides, password).0, None::<Settings>),
{
    if overrides.oauth_password.deep_view() != Some(Seq::<char>::empty()) {
        if let Some(p) = overrides.oauth_password.deep_view() {
            if p.len() == 0 {
                assert(p =~= Seq::<char>::empty());
            }
        }
    }
}

/// Overrides never reach a file that is there: whatever they are, all that is written to it
/// beside what it holds is the password.
pub proof fn lemma_overrides_are_not_written(
    existing: PcConfig,
    overrides: ConfigOverrides,
    password: Seq<char>,
)
    ensures
        settled(Some(existing), overrides, password).1 matches Some(written) ==> written == (
        Settings { oauth_password: Some(password), ..existing@ }),
{
}

/// An override wins over the file, field by field, whatever the file says; and where there is no
/// override the file's own value stays.
pub proof fn lemma_overrides_win(c: Settings, o: ConfigOverrides)
    ensures
        o.workspace matches Some(x) ==> overridden(c, o).workspace == x@,
        o.workspace is None ==> overridden(c, o).workspace == c.workspace,
        o.oauth_password matches Some(x) ==> overridden(c, o).oauth_password == Some(x@),
        o.oauth_password is None ==> overridden(c, o).oauth_password == c.oauth_password,
        o.public_url matches Some(x) ==> overridden(c, o).public_url == Some(x@),
        o.public_url is None ==> overridden(c, o).public_url == c.public_url,
        o.production matches Some(x) ==> overridden(c, o).production == x,
        o.production is None ==> overridden(c, o).production == c.production,
        o.allowed_redirect_hosts matches Some(x) ==> overridden(c, o).allowed_redirect_hosts
            == texts(x@),
        o.allowed_redirect_hosts is None ==> overridden(c, o).allowed_redirect_hosts
            == c.allowed_redirect_hosts,
        o.task_log_retention_secs matches Some(x) ==> overridden(c, o).task_log_retention_secs == x,
        o.task_log_retention_secs is None ==> overridden(c, o).task_log_retention_secs
            == c.task_log_retention_secs,
        o.security_mode matches Some(x) ==> overridden(c, o).security.mode == x,
        o.security_mode is None ==> overridden(c, o).security.mode == c.security.mode,
        o.security_network matches Some(x) ==> overridden(c, o).security.network == x,
        o.security_network is None ==> overridden(c, o).security.network == c.security.network,
        o.security_protect_secrets matches Some(x) ==> overridden(c, o).security.protect_secrets
            == x,
        o.security_protect_secrets is None ==> overridden(c, o).security.protect_secrets
            == c.security.protect_secrets,
{
}

/// What a field is set to by an override is the same for every configuration.
pub proof fn lemma_overrides_do_not_depend_on_the_file(a: Settings, b: Settings, o: ConfigOverrides)
    ensures
        o.workspace is Some ==> overridden(a, o).workspace == overridden(b, o).workspace,
        o.oauth_password is Some ==> overridden(a, o).oauth_password == overridden(
            b,
            o,
        ).oauth_password,
        o.public_url is Some ==> overridden(a, o).public_url == overridden(b, o).public_url,
        o.production is Some ==> overridden(a, o).production == overridden(b, o).production,
        o.allowed_redirect_hosts is Some ==> overridden(a, o).allowed_redirect_hosts == overridden(
            b,
            o,
        ).allowed_redirect_hosts,
        o.task_log_retention_secs is Some ==> overridden(a, o).task_log_retention_secs
            == overridden(b, o).task_log_retention_secs,
        o.security_mode is Some ==> overridden(a, o).security.mode == overridden(
            b,
            o,
        ).security.mode,
        o.security_network is Some ==> overridden(a, o).security.network == overridden(
            b,
            o,
        ).security.network,
        o.security_protect_secrets is Some ==> overridden(a, o).security.protect_secrets
            == overridden(b, o).security.protect_secrets,
{
}

/// What the configuration is where neither a file nor an override says anything.
pub proof fn lemma_defaults(password: Seq<char>, o: ConfigOverrides)
    requires
        no_overrides(o),
        password.len() > 0,
    ensures
        ({
            let run = settled(None, o, password).0;
            &&& run.workspace == "."@
            &&& run.oauth_password == Some(password)
            &&& run.public_url is None
            &&& !run.production
            &&& run.allowed_redirect_hosts.len() == 0
            &&& run.task_log_retention_secs == 7200
            &&& run.security.mode == SecurityMode::Full
            &&& run.security.network
            &&& run.security.protect_secrets
        }),
{
}

/// What pc runs with: the file's configuration with the overrides, and nothing else is changed
/// but for a password that is missing, empty or not there at all. An existing password is kept.
pub proof fn lemma_what_pc_runs_with(
    existing: Option<PcConfig>,
    o: ConfigOverrides,
    password: Seq<char>,
)
    ensures
        ({
            let base = match existing {
                Some(c) => c@,
                None => default_settings(),
            };
            let run = settled(existing, o, password).0;
            let full = overridden(base, o);
            &&& run == Settings { oauth_password: run.oauth_password, ..full }
            &&& match full.oauth_password {
                Some(p) => run.oauth_password == if p.len() > 0 {
                    Some(p)
                } else {
                    Some(password)
                },
                None => run.oauth_password == Some(password),
            }
        }),
{
}

/// When the file is written: where there is none, and where the password was missing.
pub proof fn lemma_when_the_file_is_written(
    existing: Option<PcConfig>,
    o: ConfigOverrides,
    password: Seq<char>,
)
    ensures
        ({
            let (run, written) = settled(existing, o, password);
            let before = match existing {
                Some(c) => overridden(c@, o).oauth_password,
                None => None,
            };
            let missing = before is None || before->0.len() == 0;
            &&& written is Some <==> existing is None || missing
            &&& existing is None ==> written == Some(run)
            &&& missing ==> (existing matches Some(c) ==> written == Some(
                Settings { oauth_password: Some(password), ..c@ },
            ))
        }),
{
}

/// The last quote is the last one.
proof fn lemma_last_place(s: Seq<char>, c: char)
    ensures
        match last_place(s, c) {
            Some(i) => 0 <= i < s.len() && s[i] == c && forall|j: int|
                i < j < s.len() ==> #[trigger] s[j] != c,
            None => forall|j: int| 0 <= j < s.len() ==> #[trigger] s[j] != c,
        },
    decreases s.len(),
{
    if s.len() > 0 && s.last() != c {
        let init = s.drop_last();
        lemma_last_place(init, c);
        assert forall|j: int| 0 <= j < s.len() - 1 implies #[trigger] s[j] == init[j] by {}
    }
}

/// The line that gives the workspace in double quotes.
spec fn quoted_line(indent: Seq<char>, gap: Seq<char>, path: Seq<char>, rest: Seq<char>) -> Seq<char> {
    indent + "workspace:"@ + gap + seq!['"'] + path + seq!['"'] + rest
}

proof fn lemma_quoted_line(indent: Seq<char>, gap: Seq<char>, path: Seq<char>, rest: Seq<char>)
    requires
        forall|i: int| 0 <= i < indent.len() ==> is_space(#[trigger] indent[i]),
        forall|i: int| 0 <= i < gap.len() ==> is_space(#[trigger] gap[i]),
        forall|i: int| 0 <= i < rest.len() ==> #[trigger] rest[i] != '"',
    ensures
        ({
            let line = quoted_line(indent, gap, path, rest);
            let open = indent.len() as int + "workspace:"@.len() + gap.len();
            let close = open + 1 + path.len();
            &&& quotes(line) == Some((open, close))
            &&& line.subrange(open + 1, close) == path
            &&& line.take(open + 1) == indent + "workspace:"@ + gap + seq!['"']
            &&& line.skip(close) == seq!['"'] + rest
        }),
{
    let key = "workspace:"@;
    reveal_strlit("workspace:");
    let tail = seq!['"'] + path + seq!['"'] + rest;
    let line = quoted_line(indent, gap, path, rest);
    assert(line =~= indent + (key + gap + tail));
    lemma_trimmed_start(indent, key + gap + tail);
    assert(trimmed_start(line) =~= key + gap + tail);
    assert((key + gap + tail).take(key.len() as int) =~= key);
    assert((key + gap + tail).skip(key.len() as int) =~= gap + tail);
    lemma_trimmed_start(gap, tail);
    let open: int = indent.len() as int + key.len() + gap.len();
    assert(workspace_value(line) == Some(open));
    assert(line[open] == '"');
    let behind = line.skip(open + 1);
    assert(behind =~= path + seq!['"'] + rest);
    lemma_last_place(behind, '"');
    assert(behind[path.len() as int] == '"');
    let at = last_place(behind, '"')->0;
    assert(at == path.len()) by {
        if at > path.len() {
            assert(behind[at] == rest[at - path.len() - 1]);
        }
    }
    let close: int = open + 1 + path.len();
    assert(line.subrange(open + 1, close) =~= path);
    assert(line.take(open + 1) =~= indent + key + gap + seq!['"']);
    assert(line.skip(close) =~= seq!['"'] + rest);
}

/// What a repair does. A line that gives the workspace in double quotes, in whatever indentation
/// and with whatever behind the last quote, is repaired where the path has a backslash and
/// starts as a Windows path does, with a drive or with two backslashes. It then keeps what
/// stands outside of the quotes, and between them every backslash is doubled. It is misread
/// where, in addition, backslashes stand in a run of odd length.
pub proof fn lemma_repair_of_a_line(
    indent: Seq<char>,
    gap: Seq<char>,
    path: Seq<char>,
    rest: Seq<char>,
)
    requires
        forall|i: int| 0 <= i < indent.len() ==> is_space(#[trigger] indent[i]),
        forall|i: int| 0 <= i < gap.len() ==> is_space(#[trigger] gap[i]),
        forall|i: int| 0 <= i < rest.len() ==> #[trigger] rest[i] != '"',
    ensures
        ({
            let line = indent + "workspace:"@ + gap + seq!['"'] + path + seq!['"'] + rest;
            let drive = path.len() >= 3 && (('a' <= path[0] && path[0] <= 'z') || ('A' <= path[0]
                && path[0] <= 'Z')) && path[1] == ':' && path[2] == '\\';
            let share = path.len() >= 2 && path[0] == '\\' && path[1] == '\\';
            let windows = drive || share;
            &&& needs_repair(line) <==> windows
            &&& windows ==> repaired_line(line) == indent + "workspace:"@ + gap + seq!['"']
                + doubled(path) + seq!['"'] + rest
            &&& !windows ==> repaired_line(line) == line
            &&& line_is_misread(line) <==> windows && has_odd_run(path, '\\')
        }),
{
    let line = quoted_line(indent, gap, path, rest);
    lemma_quoted_line(indent, gap, path, rest);
    if windows_path(path) {
        assert(path.contains('\\')) by {
            if path[0] == '\\' {
                assert(path.contains('\\'));
            } else {
                assert(path[2] == '\\');
            }
        }
        assert(repaired_line(line) =~= indent + "workspace:"@ + gap + seq!['"'] + doubled(path)
            + seq!['"'] + rest);
    }
}

/// Where a character stands an odd number of times in a row, with other characters or nothing
/// around it, there is an odd run.
pub proof fn lemma_odd_run(a: Seq<char>, c: char, n: nat, b: Seq<char>)
    requires
        a.len() == 0 || a.last() != c,
        b.len() == 0 || b[0] != c,
        n % 2 == 1,
    ensures
        has_odd_run(a + Seq::new(n, |i: int| c) + b, c),
        !has_odd_run(Seq::new(n, |i: int| c) + Seq::new(n, |i: int| c), c),
{
    let s = a + Seq::new(n, |i: int| c) + b;
    let from = a.len() as int;
    assert(is_run(s, c, from, from + n)) by {
        assert forall|i: int| from <= i < from + n implies #[trigger] s[i] == c by {}
    }
    let twice = Seq::new(n, |i: int| c) + Seq::new(n, |i: int| c);
    assert forall|x: int, y: int| #[trigger] is_run(twice, c, x, y) implies (y - x) % 2 == 0 by {
        assert(x == 0) by {
            if x > 0 {
                assert(twice[x - 1] == c);
            }
        }
        assert(y == twice.len()) by {
            if y < twice.len() {
                assert(twice[y] == c);
            }
        }
    }
}

/// A path without the character has no run of it.
pub proof fn lemma_no_run(s: Seq<char>, c: char)
    requires
        !s.contains(c),
    ensures
        !has_odd_run(s, c),
{
    assert forall|x: int, y: int| #[trigger] is_run(s, c, x, y) implies (y - x) % 2 == 0 by {
        assert(s[x] == c);
    }
}

/// Where the configuration directory is by default: `.config/pc` in the home directory. A
/// variable that is empty counts as one that is not set.
pub proof fn lemma_default_directory(home: Seq<char>)
    requires
        home.len() > 0,
    ensures
        home.last() != '/' ==> config_dir_in(home) == home + "/.config/pc"@,
        home.last() == '/' ==> config_dir_in(home) == home + ".config/pc"@,
        set_value(Some(home)) == Some(home),
        set_value(Some(Seq::empty())) is None,
        set_value(None) is None,
{
    reveal_strlit("/");
    reveal_strlit(".config");
    reveal_strlit("pc");
    reveal_strlit("/.config/pc");
    reveal_strlit(".config/pc");
    if home.last() == '/' {
        assert(config_dir_in(home) =~= home + ".config/pc"@);
    } else {
        assert(config_dir_in(home) =~= home + "/.config/pc"@);
    }
}

/// A line that does not give a workspace in double quotes stays as it is.
pub proof fn lemma_other_lines_are_not_repaired(line: Seq<char>)
    requires
        !begins_with(trimmed_start(line), "workspace:"@) || !line.contains('"') || !line.contains(
            '\\',
        ),
    ensures
        !needs_repair(line),
        repaired_line(line) == line,
{
    if needs_repair(line) {
        let (open, close) = quotes(line)->0;
        lemma_trimmed_start_is_an_end(line);
        lemma_trimmed_start_is_an_end(after_prefix(trimmed_start(line), "workspace:"@)->0);
        lemma_last_place(line.skip(open + 1), '"');
        assert(line[open] == '"');
        let inner = line.subrange(open + 1, close);
        let i = choose|i: int| 0 <= i < inner.len() && inner[i] == '\\';
        assert(line[open + 1 + i] == '\\');
        assert(line.contains('"'));
    }
}

/// Doubling the backslashes of a path: the path without one stays, and behind every path that is
/// doubled a backslash becomes two and any other character stays itself.
pub proof fn lemma_doubled(path: Seq<char>, c: char)
    ensures
        !path.contains('\\') ==> doubled(path) == path,
        doubled(path.push(c)) == if c == '\\' {
            doubled(path).push('\\').push('\\')
        } else {
            doubled(path).push(c)
        },
    decreases path.len(),
{
    crate::text::lemma_expanded_push(path, c, |c: char| doubled_char(c));
    assert(doubled(path.push(c)) =~= doubled(path) + doubled_char(c));
    if path.len() == 0 {
        assert(doubled(path) =~= path);
    } else {
        let init = path.drop_last();
        let x = path.last();
        lemma_doubled(init, x);
        assert(init.push(x) =~= path);
        if !path.contains('\\') {
            assert(path[path.len() - 1] == x);
            assert(!init.contains('\\')) by {
                if init.contains('\\') {
                    let i = choose|i: int| 0 <= i < init.len() && init[i] == '\\';
                    assert(path[i] == '\\');
                }
            }
        }
    }
}

/// The whole text is repaired line by line: the lines of the repaired text are the repaired
/// lines, in their order.
pub proof fn lemma_repair_goes_line_by_line(text: Seq<char>)
    ensures
        repaired(text) == joined(
            Seq::new(
                parts(text, '\n').len(),
                |i: int| repaired_line(parts(text, '\n')[i]),
            ),
            "\n"@,
        ),
        !any_needs_repair(parts(text, '\n')) ==> repaired(text) == text,
{
    let ps = parts(text, '\n');
    assert(ps.map_values(|l: Seq<char>| repaired_line(l)) =~= Seq::new(
        ps.len(),
        |i: int| repaired_line(ps[i]),
    ));
    if !any_needs_repair(ps) {
        assert forall|i: int| 0 <= i < ps.len() implies #[trigger] repaired_line(ps[i]) == ps[i] by {
            assert(!needs_repair(ps[i]));
        }
        assert(ps.map_values(|l: Seq<char>| repaired_line(l)) =~= ps);
        crate::text::lemma_joined_parts(text);
    }
}

/// What a configuration says, field by field.
pub proof fn lemma_what_a_configuration_says(c: PcConfig, run: PcConfig, written: Option<PcConfig>)
    ensures
        c@.workspace == c.workspace@,
        c@.oauth_password == c.oauth_password.deep_view(),
        c@.public_url == c.public_url.deep_view(),
        c@.production == c.production,
        c@.allowed_redirect_hosts == texts(c.allowed_redirect_hosts@),
        c@.task_log_retention_secs == c.task_log_retention_secs,
        c@.security == c.security,
        settled_view((run, written)).0 == run@,
        written is None ==> settled_view((run, written)).1 is None,
        written matches Some(w) ==> settled_view((run, written)).1 == Some(w@),
        CONFIG_FILE@ == "config.yaml"@,
{
}

/// One line is enough: a file is repaired where any of its lines needs it, wherever it stands, and
/// misread where any of them is.
pub proof fn lemma_one_line_is_enough(before: Seq<Seq<char>>, line: Seq<char>, after: Seq<Seq<char>>)
    ensures
        any_needs_repair(before + seq![line] + after) <==> needs_repair(line) || any_needs_repair(
            before,
        ) || any_needs_repair(after),
        any_is_misread(before + seq![line] + after) <==> line_is_misread(line) || any_is_misread(
            before,
        ) || any_is_misread(after),
        !any_needs_repair(Seq::empty()),
        !any_is_misread(Seq::empty()),
{
    let all = before + seq![line] + after;
    let n = before.len() as int;
    assert(all[n] == line);
    assert forall|i: int| 0 <= i < before.len() implies #[trigger] all[i] == before[i] by {}
    assert forall|i: int| 0 <= i < after.len() implies #[trigger] after[i] == all[n + 1 + i] by {}
    if any_needs_repair(all) {
        let i = choose|i: int| 0 <= i < all.len() && needs_repair(#[trigger] all[i]);
        if i < n {
            assert(needs_repair(before[i]));
        } else if i > n {
            assert(needs_repair(after[i - n - 1]));
        }
    }
    if any_needs_repair(before) {
        let i = choose|i: int| 0 <= i < before.len() && needs_repair(#[trigger] before[i]);
        assert(needs_repair(all[i]));
    }
    if any_needs_repair(after) {
        let i = choose|i: int| 0 <= i < after.len() && needs_repair(#[trigger] after[i]);
        assert(needs_repair(all[n + 1 + i]));
    }
    if any_is_misread(all) {
        let i = choose|i: int| 0 <= i < all.len() && line_is_misread(#[trigger] all[i]);
        if i < n {
            assert(line_is_misread(before[i]));
        } else if i > n {
            assert(line_is_misread(after[i - n - 1]));
        }
    }
    if any_is_misread(before) {
        let i = choose|i: int| 0 <= i < before.len() && line_is_misread(#[trigger] before[i]);
        assert(line_is_misread(all[i]));
    }
    if any_is_misread(after) {
        let i = choose|i: int| 0 <= i < after.len() && line_is_misread(#[trigger] after[i]);
        assert(line_is_misread(all[n + 1 + i]));
    }
}

/// A workspace that is not quoted, or whose quotes are not closed, is not repaired, whatever
/// stands behind.
pub proof fn lemma_unquoted_workspace_is_not_repaired(
    indent: Seq<char>,
    gap: Seq<char>,
    value: Seq<char>,
)
    requires
        forall|i: int| 0 <= i < indent.len() ==> is_space(#[trigger] indent[i]),
        forall|i: int| 0 <= i < gap.len() ==> is_space(#[trigger] gap[i]),
        value.len() == 0 || !is_space(value[0]),
        value.len() == 0 || value[0] != '"' || !value.drop_first().contains('"'),
    ensures
        ({
            let line = indent + "workspace:"@ + gap + value;
            !needs_repair(line) && repaired_line(line) == line && !line_is_misread(line)
        }),
{
    let key = "workspace:"@;
    reveal_strlit("workspace:");
    let line = indent + key + gap + value;
    assert(line =~= indent + (key + gap + value));
    lemma_trimmed_start(indent, key + gap + value);
    assert(trimmed_start(line) =~= key + gap + value);
    assert((key + gap + value).take(key.len() as int) =~= key);
    assert((key + gap + value).skip(key.len() as int) =~= gap + value);
    lemma_trimmed_start(gap, value);
    let open: int = indent.len() as int + key.len() + gap.len();
    assert(workspace_value(line) == Some(open));
    if value.len() > 0 && value[0] == '"' {
        let behind = line.skip(open + 1);
        assert(behind =~= value.drop_first());
        lemma_last_place(behind, '"');
        if let Some(at) = last_place(behind, '"') {
            assert(behind.contains(behind[at]));
        }
    } else if value.len() > 0 {
        assert(line[open] == value[0]);
    }
    assert(quotes(line) is None);
}

} // verus!
