//! The sandbox of safe mode.
//!
//! Commands run through a helper, which is the program itself with a marker as its first
//! argument. The helper restricts itself to the paths that it is given and then becomes the
//! command.

use vstd::prelude::*;
use vstd::utf8::decode_utf8;
use vstd::utf8::valid_utf8;

use crate::outside::decode_lossy;
use crate::outside::lossy_text;
use crate::paths::components;
use crate::paths::insert_path;
use crate::paths::is_under;
use crate::paths::join;
use crate::paths::joined_path;
use crate::paths::lemma_joined_path;
use crate::paths::lemma_path_set;
use crate::paths::lemma_paths_start_at_the_directory;
use crate::paths::lies_under;
use crate::paths::path_set;
use crate::text::clone_texts;
use crate::text::concat;
use crate::text::concat3;
use crate::text::pairs;
use crate::text::parts;
use crate::text::split;
use crate::text::texts;
use crate::text::trim;
use crate::text::trimmed;
use crate::text::words1;
use crate::text::words2;
use crate::text::words3;
use crate::tools::access::secret_locations;
use crate::tools::access::secret_places;

pub mod helper;
pub mod namespace;

verus! {

/// The first argument of the helper.
pub const EXEC_ARG: &'static str = "__pc-sandbox-exec";

/// The environment variable that tells the helper what to allow.
pub const SPEC_ENV: &'static str = "PC_SANDBOX_SPEC";

/// The search path where none is set.
pub const DEFAULT_SEARCH_PATH: &'static str = "/usr/local/bin:/usr/bin:/bin";

/// What a command in the sandbox may touch.
#[derive(Debug)]
pub struct SandboxSpec {
    pub read_only: Vec<String>,
    pub read_write: Vec<String>,
    pub working_dir: String,
    pub namespace_root_base: String,
    pub network: bool,
}

/// The sandbox.
#[derive(Debug)]
pub struct SafeSandbox {
    workspace: String,
    temp_dir: String,
    home_dir: String,
    namespace_root_base: String,
    read_only: Vec<String>,
    path: String,
    rustup_home: Option<String>,
    network: bool,
}

/// The sandbox as a mathematical value.
pub struct Sandbox {
    pub workspace: Seq<char>,
    pub temp_dir: Seq<char>,
    pub home_dir: Seq<char>,
    pub namespace_root_base: Seq<char>,
    pub read_only: Seq<Seq<char>>,
    pub path: Seq<char>,
    pub rustup_home: Option<Seq<char>>,
    pub network: bool,
}

impl View for SafeSandbox {
    type V = Sandbox;

    closed spec fn view(&self) -> Sandbox {
        Sandbox {
            workspace: self.workspace@,
            temp_dir: self.temp_dir@,
            home_dir: self.home_dir@,
            namespace_root_base: self.namespace_root_base@,
            read_only: texts(self.read_only@),
            path: self.path@,
            rustup_home: self.rustup_home.deep_view(),
            network: self.network,
        }
    }
}

// ---------------------------------------------------------------------------------------
// What the sandbox is made of

/// What of the host every command may read, where it exists.
pub open spec fn system_places() -> Seq<Seq<char>> {
    seq![
        "/usr"@,
        "/bin"@,
        "/sbin"@,
        "/lib"@,
        "/lib64"@,
        "/etc/ld.so.cache"@,
        "/etc/resolv.conf"@,
        "/etc/hosts"@,
        "/etc/nsswitch.conf"@,
        "/etc/ssl"@,
        "/etc/ca-certificates"@,
    ]
}

/// What of the host every command may read, where it exists.
pub fn system_locations() -> (r: Vec<String>)
    ensures
        texts(r@) == system_places(),
{
    let mut out: Vec<String> = Vec::new();
    out.push("/usr".to_owned());
    out.push("/bin".to_owned());
    out.push("/sbin".to_owned());
    out.push("/lib".to_owned());
    out.push("/lib64".to_owned());
    out.push("/etc/ld.so.cache".to_owned());
    out.push("/etc/resolv.conf".to_owned());
    out.push("/etc/hosts".to_owned());
    out.push("/etc/nsswitch.conf".to_owned());
    out.push("/etc/ssl".to_owned());
    out.push("/etc/ca-certificates".to_owned());
    assert(texts(out@) =~= system_places());
    out
}

/// The search path: the value of the environment variable `PATH`, or a default.
pub fn search_path(path: &Option<String>) -> (r: String)
    ensures
        r@ == (match path.deep_view() {
            Some(p) => p,
            None => DEFAULT_SEARCH_PATH@,
        }),
{
    match path {
        Some(p) => p.clone(),
        None => DEFAULT_SEARCH_PATH.to_owned(),
    }
}

/// The directories in a search path.
pub fn search_dirs(path: &str) -> (r: Vec<String>)
    ensures
        texts(r@) == parts(path@, ':'),
{
    split(path, ':')
}

/// Where the Rust toolchains may be: the value of `RUSTUP_HOME`, else a directory in the home
/// directory.
pub fn rustup_location(rustup_home: &Option<String>, home: &Option<String>) -> (r: Option<String>)
    ensures
        r.deep_view() == (match (rustup_home.deep_view(), home.deep_view()) {
            (Some(dir), _) => Some(dir),
            (None, Some(h)) => Some(joined_path(h, ".rustup"@)),
            (None, None) => None,
        }),
{
    match (rustup_home, home) {
        (Some(dir), _) => Some(dir.clone()),
        (None, Some(h)) => Some(join(h.as_str(), ".rustup")),
        (None, None) => None,
    }
}

/// The places for credentials in the given home directory.
pub open spec fn secrets_in(home: Seq<char>) -> Seq<Seq<char>> {
    secret_places().map_values(|p: Seq<char>| joined_path(home, p))
}

/// The places for credentials in the given home directory.
pub fn secrets_of(home: &str) -> (r: Vec<String>)
    ensures
        texts(r@) == secrets_in(home@),
{
    let places = secret_locations();
    let ghost f = |p: Seq<char>| joined_path(home@, p);
    let mut out: Vec<String> = Vec::new();
    let mut i: usize = 0;
    while i < places.len()
        invariant
            i <= places@.len(),
            f == (|p: Seq<char>| joined_path(home@, p)),
            texts(out@) == texts(places@).take(i as int).map_values(f),
        decreases places@.len() - i,
    {
        let ghost before = texts(out@);
        let place = join(home, places[i].as_str());
        let ghost shown = place@;
        out.push(place);
        i += 1;
        assert(texts(out@) =~= before.push(shown));
        assert(texts(places@).take(i as int).map_values(f) =~= texts(places@).take(
            i - 1,
        ).map_values(f).push(f(places@[i - 1]@)));
    }
    assert(texts(places@).take(places@.len() as int) =~= texts(places@));
    out
}

/// What was found of the host: the canonical paths of what exists.
#[derive(Debug)]
pub struct Findings {
    pub workspace: String,
    pub temp_dir: String,
    /// The search path.
    pub path: String,
    /// Of what every command may read.
    pub system: Vec<String>,
    /// Of the directories in the search path.
    pub search_dirs: Vec<String>,
    /// Of the user's home directory.
    pub home: Option<String>,
    /// Of the Rust toolchains.
    pub rustup_home: Option<String>,
    /// Of the places for credentials.
    pub secrets: Vec<String>,
}

/// The directory for the home directory of commands.
pub open spec fn home_in(temp_dir: Seq<char>) -> Seq<char> {
    joined_path(temp_dir, "home"@)
}

/// The directory for the roots of mount namespaces.
pub open spec fn roots_in(temp_dir: Seq<char>) -> Seq<char> {
    joined_path(temp_dir, "sandbox-roots"@)
}

/// Whether a directory holds the user's whole home directory.
pub open spec fn holds_home(dir: Seq<char>, home: Option<Seq<char>>) -> bool {
    home matches Some(h) && lies_under(h, dir)
}

/// The directories that do not hold the user's whole home directory.
pub open spec fn narrow_dirs(dirs: Seq<Seq<char>>, home: Option<Seq<char>>) -> Seq<Seq<char>>
    decreases dirs.len(),
{
    if dirs.len() == 0 {
        Seq::<Seq<char>>::empty()
    } else if holds_home(dirs.last(), home) {
        narrow_dirs(dirs.drop_last(), home)
    } else {
        narrow_dirs(dirs.drop_last(), home).push(dirs.last())
    }
}

/// An optional path as a list.
pub open spec fn as_list(p: Option<Seq<char>>) -> Seq<Seq<char>> {
    match p {
        Some(x) => seq![x],
        None => Seq::<Seq<char>>::empty(),
    }
}

/// The places for credentials on the host: those in the home directory, and where those that
/// exist lead to.
pub open spec fn credential_places(f: Findings) -> Seq<Seq<char>> {
    match f.home.deep_view() {
        Some(home) => secrets_in(home) + texts(f.secrets@),
        None => Seq::<Seq<char>>::empty(),
    }
}

/// Whether of two paths one is the other or lies under it.
pub open spec fn overlap(a: Seq<char>, b: Seq<char>) -> bool {
    lies_under(a, b) || lies_under(b, a)
}

/// Whether one of the places is the path, lies under it or holds it.
pub open spec fn exposes(path: Seq<char>, places: Seq<Seq<char>>) -> bool {
    exists|i: int| 0 <= i < places.len() && overlap(#[trigger] places[i], path)
}

/// What commands may read: the system's places, the directories of the search path but for
/// those that hold the whole home directory, the Rust toolchains, and the places for
/// credentials where they are not protected.
pub open spec fn readable(f: Findings, protect_secrets: bool) -> Seq<Seq<char>> {
    texts(f.system@) + narrow_dirs(texts(f.search_dirs@), f.home.deep_view()) + as_list(
        f.rustup_home.deep_view(),
    ) + (if protect_secrets || f.home is None {
        Seq::<Seq<char>>::empty()
    } else {
        texts(f.secrets@)
    })
}

/// The sandbox for a host.
pub open spec fn sandbox_for(f: Findings, network: bool, protect_secrets: bool) -> Sandbox {
    Sandbox {
        workspace: f.workspace@,
        temp_dir: f.temp_dir@,
        home_dir: home_in(f.temp_dir@),
        namespace_root_base: roots_in(f.temp_dir@),
        read_only: path_set(readable(f, protect_secrets)),
        path: f.path@,
        rustup_home: f.rustup_home.deep_view(),
        network,
    }
}

/// The directories of the sandbox that have to be private to the user.
pub fn private_dirs(temp_dir: &str) -> (r: (String, String))
    ensures
        r.0@ == home_in(temp_dir@),
        r.1@ == roots_in(temp_dir@),
{
    (join(temp_dir, "home"), join(temp_dir, "sandbox-roots"))
}

/// Adds paths to a sorted set.
fn insert_all(set: &mut Vec<String>, ps: &Vec<String>, Ghost(before): Ghost<Seq<Seq<char>>>)
    requires
        texts(old(set)@) == path_set(before),
    ensures
        texts(final(set)@) == path_set(before + texts(ps@)),
{
    let mut i: usize = 0;
    assert(before + texts(ps@).take(0) =~= before);
    while i < ps.len()
        invariant
            i <= ps@.len(),
            texts(set@) == path_set(before + texts(ps@).take(i as int)),
        decreases ps@.len() - i,
    {
        insert_path(set, ps[i].clone());
        i += 1;
        proof {
            let now = before + texts(ps@).take(i as int);
            assert(now.drop_last() =~= before + texts(ps@).take(i - 1));
            assert(now.last() == ps@[i - 1]@);
        }
    }
    assert(texts(ps@).take(ps@.len() as int) =~= texts(ps@));
}

/// The directories that do not hold the user's whole home directory.
fn narrow(dirs: &Vec<String>, home: &Option<String>) -> (r: Vec<String>)
    ensures
        texts(r@) == narrow_dirs(texts(dirs@), home.deep_view()),
{
    let mut out: Vec<String> = Vec::new();
    let mut i: usize = 0;
    assert(texts(out@) =~= narrow_dirs(texts(dirs@).take(0), home.deep_view()));
    while i < dirs.len()
        invariant
            i <= dirs@.len(),
            texts(out@) == narrow_dirs(texts(dirs@).take(i as int), home.deep_view()),
        decreases dirs@.len() - i,
    {
        let ghost before = texts(out@);
        let dir = dirs[i].as_str();
        let broad = match home {
            Some(h) => is_under(h.as_str(), dir),
            None => false,
        };
        assert(texts(dirs@).take(i + 1).drop_last() =~= texts(dirs@).take(i as int));
        assert(texts(dirs@).take(i + 1).last() == dir@);
        if !broad {
            out.push(dirs[i].clone());
            assert(texts(out@) =~= before.push(dir@));
        }
        i += 1;
    }
    assert(texts(dirs@).take(dirs@.len() as int) =~= texts(dirs@));
    out
}

/// The places for credentials on the host.
fn credentials_of(found: &Findings) -> (r: Vec<String>)
    ensures
        texts(r@) == credential_places(*found),
{
    match &found.home {
        Some(home) => {
            let mut out = secrets_of(home.as_str());
            extend(&mut out, &found.secrets);
            out
        },
        None => {
            let none: Vec<String> = Vec::new();
            assert(texts(none@) =~= Seq::empty());
            none
        },
    }
}

/// Whether one of the places is the path, lies under it or holds it.
fn exposes_place(path: &str, places: &Vec<String>) -> (r: bool)
    ensures
        r == exposes(path@, texts(places@)),
{
    let mut i: usize = 0;
    while i < places.len()
        invariant
            i <= places@.len(),
            forall|j: int| 0 <= j < i ==> !overlap(#[trigger] texts(places@)[j], path@),
        decreases places@.len() - i,
    {
        assert(texts(places@)[i as int] == places@[i as int]@);
        if is_under(places[i].as_str(), path) || is_under(path, places[i].as_str()) {
            return true;
        }
        i += 1;
    }
    false
}

/// What commands may touch, but for their own home directory and the devices, where credentials
/// are protected.
pub open spec fn touchable(f: Findings) -> Seq<Seq<char>> {
    seq![f.workspace@, f.temp_dir@] + readable(f, true)
}

/// Whether nothing that commands may touch exposes credentials.
pub open spec fn hides_credentials(f: Findings) -> bool {
    forall|i: int|
        0 <= i < touchable(f).len() ==> !exposes(#[trigger] touchable(f)[i], credential_places(f))
}

/// The message for a path that exposes credentials.
pub open spec fn exposing(path: Seq<char>) -> Seq<char> {
    "protect_secrets cannot hide the credentials under "@ + path
}

/// The first path that exposes one of the places, where one does.
fn first_exposing(paths: &Vec<String>, places: &Vec<String>) -> (r: Option<usize>)
    ensures
        match r {
            Some(i) => {
                &&& i < paths@.len()
                &&& exposes(texts(paths@)[i as int], texts(places@))
                &&& forall|j: int|
                    0 <= j < i ==> !exposes(#[trigger] texts(paths@)[j], texts(places@))
            },
            None => forall|j: int|
                0 <= j < paths@.len() ==> !exposes(#[trigger] texts(paths@)[j], texts(places@)),
        },
{
    let mut i: usize = 0;
    while i < paths.len()
        invariant
            i <= paths@.len(),
            forall|j: int| 0 <= j < i ==> !exposes(#[trigger] texts(paths@)[j], texts(places@)),
        decreases paths@.len() - i,
    {
        assert(texts(paths@)[i as int] == paths@[i as int]@);
        if exposes_place(paths[i].as_str(), places) {
            return Some(i);
        }
        i += 1;
    }
    None
}

/// What commands may touch, where credentials are protected.
fn touchable_paths(found: &Findings) -> (r: Vec<String>)
    ensures
        texts(r@) == touchable(*found),
{
    let mut out = words2(found.workspace.as_str(), found.temp_dir.as_str());
    extend(&mut out, &found.system);
    let dirs = narrow(&found.search_dirs, &found.home);
    extend(&mut out, &dirs);
    if let Some(p) = &found.rustup_home {
        extend(&mut out, &words1(p.as_str()));
    }
    assert(texts(out@) =~= touchable(*found));
    out
}

/// Whether a sandbox may be set up for a host: not where credentials are protected and
/// something that commands may touch exposes them. A workspace does that which is the home
/// directory or holds it, or which lies in a place for credentials.
pub fn check_exposure(found: &Findings, protect_secrets: bool) -> (r: Result<(), String>)
    ensures
        r is Ok <==> !protect_secrets || hides_credentials(*found),
        r matches Err(m) ==> exists|i: int|
            {
                &&& 0 <= i < touchable(*found).len()
                &&& exposes(#[trigger] touchable(*found)[i], credential_places(*found))
                &&& forall|j: int|
                    0 <= j < i ==> !exposes(
                        #[trigger] touchable(*found)[j],
                        credential_places(*found),
                    )
                &&& m@ == exposing(touchable(*found)[i])
            },
{
    if !protect_secrets {
        return Ok(());
    }
    let places = credentials_of(found);
    let paths = touchable_paths(found);
    match first_exposing(&paths, &places) {
        Some(i) => {
            assert(texts(paths@)[i as int] == paths@[i as int]@);
            assert(exposes(touchable(*found)[i as int], credential_places(*found)));
            Err(concat("protect_secrets cannot hide the credentials under ", paths[i].as_str()))
        },
        None => Ok(()),
    }
}

impl SafeSandbox {
    /// Sets up the sandbox for a host.
    pub fn start(found: Findings, network: bool, protect_secrets: bool) -> (r: Self)
        ensures
            r@ == sandbox_for(found, network, protect_secrets),
    {
        let (home_dir, namespace_root_base) = private_dirs(found.temp_dir.as_str());
        let mut read_only: Vec<String> = Vec::new();
        let ghost none = Seq::<Seq<char>>::empty();
        assert(texts(read_only@) =~= path_set(none));
        insert_all(&mut read_only, &found.system, Ghost(none));
        assert(none + texts(found.system@) =~= texts(found.system@));
        let ghost so_far = texts(found.system@);
        let dirs = narrow(&found.search_dirs, &found.home);
        insert_all(&mut read_only, &dirs, Ghost(so_far));
        let ghost so_far = so_far + texts(dirs@);
        if let Some(p) = &found.rustup_home {
            insert_path(&mut read_only, p.clone());
        }
        proof {
            let list = as_list(found.rustup_home.deep_view());
            if found.rustup_home is Some {
                assert((so_far + list).drop_last() =~= so_far);
            } else {
                assert(so_far + list =~= so_far);
            }
        }
        let ghost so_far = so_far + as_list(found.rustup_home.deep_view());
        assert(texts(read_only@) == path_set(so_far));
        if !protect_secrets && found.home.is_some() {
            insert_all(&mut read_only, &found.secrets, Ghost(so_far));
        } else {
            assert(so_far + Seq::<Seq<char>>::empty() =~= so_far);
        }
        SafeSandbox {
            workspace: found.workspace,
            temp_dir: found.temp_dir,
            home_dir,
            namespace_root_base,
            read_only,
            path: found.path,
            rustup_home: found.rustup_home,
            network,
        }
    }

    /// The directory for temporary files.
    pub fn temp_dir(&self) -> (r: &str)
        ensures
            r@ == self@.temp_dir,
    {
        self.temp_dir.as_str()
    }

    /// The path that a tool's argument stands for: a relative path starts at the workspace.
    pub fn visible_path(&self, raw: &str) -> (r: String)
        ensures
            r@ == joined_path(self@.workspace, raw@),
    {
        join(self.workspace.as_str(), raw)
    }
}

proof fn lemma_narrow(dirs: Seq<Seq<char>>, home: Option<Seq<char>>, p: Seq<char>)
    requires
        narrow_dirs(dirs, home).contains(p),
    ensures
        dirs.contains(p),
        !holds_home(p, home),
    decreases dirs.len(),
{
    let r = narrow_dirs(dirs, home);
    let k = choose|k: int| 0 <= k < r.len() && r[k] == p;
    if dirs.len() > 0 {
        let init = dirs.drop_last();
        if holds_home(dirs.last(), home) || k < narrow_dirs(init, home).len() {
            assert(narrow_dirs(init, home)[k] == p);
            lemma_narrow(init, home, p);
            let j = choose|j: int| 0 <= j < init.len() && init[j] == p;
            assert(dirs[j] == p);
        } else {
            assert(dirs[dirs.len() - 1] == p);
        }
    }
}

/// While credentials are protected, what commands may read is made of the system's places,
/// the Rust toolchains and directories of the search path that do not hold the whole home
/// directory, and of nothing else.
pub proof fn lemma_protected_sandbox(f: Findings, network: bool, p: Seq<char>)
    requires
        sandbox_for(f, network, true).read_only.contains(p),
    ensures
        texts(f.system@).contains(p) || f.rustup_home.deep_view() == Some(p) || (texts(
            f.search_dirs@,
        ).contains(p) && !holds_home(p, f.home.deep_view())),
{
    let all = readable(f, true);
    lemma_path_set(all);
    assert(all.contains(p));
    let k = choose|k: int| 0 <= k < all.len() && all[k] == p;
    let a = texts(f.system@);
    let b = narrow_dirs(texts(f.search_dirs@), f.home.deep_view());
    if k < a.len() {
        assert(a[k] == p);
    } else if k < a.len() + b.len() {
        assert(b[k - a.len()] == p);
        assert(b.contains(p));
        lemma_narrow(texts(f.search_dirs@), f.home.deep_view(), p);
    }
}

// ---------------------------------------------------------------------------------------
// Commands

/// The devices that commands may use.
pub fn devices() -> (r: Vec<String>)
    ensures
        texts(r@) == seq![
            "/dev/null"@,
            "/dev/zero"@,
            "/dev/full"@,
            "/dev/random"@,
            "/dev/urandom"@,
        ],
{
    let mut out: Vec<String> = Vec::new();
    out.push("/dev/null".to_owned());
    out.push("/dev/zero".to_owned());
    out.push("/dev/full".to_owned());
    out.push("/dev/random".to_owned());
    out.push("/dev/urandom".to_owned());
    assert(texts(out@) =~= seq![
        "/dev/null"@,
        "/dev/zero"@,
        "/dev/full"@,
        "/dev/random"@,
        "/dev/urandom"@,
    ]);
    out
}

/// The environment variables that are handed on to commands.
pub open spec fn passed_names() -> Seq<Seq<char>> {
    seq![
        "LANG"@,
        "LC_ALL"@,
        "TERM"@,
        "TZ"@,
        "SSL_CERT_FILE"@,
        "SSL_CERT_DIR"@,
        "NODE_EXTRA_CA_CERTS"@,
    ]
}

/// The environment variables that are handed on to commands.
pub fn passed_variables() -> (r: Vec<String>)
    ensures
        texts(r@) == passed_names(),
{
    let mut out: Vec<String> = Vec::new();
    out.push("LANG".to_owned());
    out.push("LC_ALL".to_owned());
    out.push("TERM".to_owned());
    out.push("TZ".to_owned());
    out.push("SSL_CERT_FILE".to_owned());
    out.push("SSL_CERT_DIR".to_owned());
    out.push("NODE_EXTRA_CA_CERTS".to_owned());
    assert(texts(out@) =~= passed_names());
    out
}

/// What is found of the host when a command is started: the canonical paths of the devices
/// that exist, and the environment variables that are handed on and set.
#[derive(Debug)]
pub struct CommandHost {
    pub devices: Vec<String>,
    pub passed: Vec<(String, String)>,
}

/// How the helper is started for a command: with these arguments, in this directory, with
/// this environment and nothing else, and with this list of what it may touch.
#[derive(Debug)]
pub struct SandboxCommand {
    pub args: Vec<String>,
    pub current_dir: String,
    pub env: Vec<(String, String)>,
    pub spec: SandboxSpec,
}

/// How the helper is started, as a mathematical value.
pub struct Launch {
    pub args: Seq<Seq<char>>,
    pub current_dir: Seq<char>,
    pub env: Seq<(Seq<char>, Seq<char>)>,
    pub read_only: Seq<Seq<char>>,
    pub read_write: Seq<Seq<char>>,
    pub working_dir: Seq<char>,
    pub namespace_root_base: Seq<char>,
    pub network: bool,
}

impl View for SandboxCommand {
    type V = Launch;

    open spec fn view(&self) -> Launch {
        Launch {
            args: texts(self.args@),
            current_dir: self.current_dir@,
            env: pairs(self.env@),
            read_only: texts(self.spec.read_only@),
            read_write: texts(self.spec.read_write@),
            working_dir: self.spec.working_dir@,
            namespace_root_base: self.spec.namespace_root_base@,
            network: self.spec.network,
        }
    }
}

/// The environment of commands, but for what is handed on.
pub open spec fn own_environment(s: Sandbox) -> Seq<(Seq<char>, Seq<char>)> {
    let base = seq![
        ("PATH"@, s.path),
        ("HOME"@, s.home_dir),
        ("TMPDIR"@, s.temp_dir),
        ("GIT_TERMINAL_PROMPT"@, "0"@),
        ("GIT_ASKPASS"@, "/bin/false"@),
        ("SSH_ASKPASS"@, "/bin/false"@),
    ];
    match s.rustup_home {
        Some(dir) => base.push(("RUSTUP_HOME"@, dir)),
        None => base,
    }
}

/// How the helper is started for a program with arguments.
pub open spec fn launch(
    s: Sandbox,
    host: CommandHost,
    program: Seq<char>,
    args: Seq<Seq<char>>,
) -> Launch {
    Launch {
        args: seq![EXEC_ARG@, program] + args,
        current_dir: s.workspace,
        env: own_environment(s) + pairs(host.passed@),
        read_only: s.read_only,
        read_write: seq![s.workspace, s.temp_dir, s.home_dir] + texts(host.devices@),
        working_dir: s.workspace,
        namespace_root_base: s.namespace_root_base,
        network: s.network,
    }
}

/// Appends copies of strings.
fn extend(out: &mut Vec<String>, more: &Vec<String>)
    ensures
        texts(final(out)@) == texts(old(out)@) + texts(more@),
{
    let mut i: usize = 0;
    assert(texts(out@) =~= texts(old(out)@) + texts(more@).take(0));
    while i < more.len()
        invariant
            i <= more@.len(),
            texts(out@) == texts(old(out)@) + texts(more@).take(i as int),
        decreases more@.len() - i,
    {
        let ghost before = texts(out@);
        out.push(more[i].clone());
        i += 1;
        assert(texts(out@) =~= before.push(more@[i - 1]@));
        assert(texts(more@).take(i as int) =~= texts(more@).take(i - 1).push(more@[i - 1]@));
    }
    assert(texts(more@).take(more@.len() as int) =~= texts(more@));
}

/// Appends a variable.
fn push_variable(env: &mut Vec<(String, String)>, key: &str, value: &str)
    ensures
        pairs(final(env)@) == pairs(old(env)@).push((key@, value@)),
{
    env.push((key.to_owned(), value.to_owned()));
    assert(pairs(env@) =~= pairs(old(env)@).push((key@, value@)));
}

/// The script that writes a file, given its path as the first argument and its content on
/// standard input.
pub const WRITE_SCRIPT: &'static str = "mkdir -p -- \"$(dirname -- \"$1\")\" && cat > \"$1\"";

impl SafeSandbox {
    /// How the helper is started for a program with arguments.
    fn launch_with(&self, host: &CommandHost, program: &str, args: &Vec<String>) -> (r:
        SandboxCommand)
        ensures
            r@ == launch(self@, *host, program@, texts(args@)),
    {
        let mut all = words2(EXEC_ARG, program);
        extend(&mut all, args);
        let mut read_write = words3(
            self.workspace.as_str(),
            self.temp_dir.as_str(),
            self.home_dir.as_str(),
        );
        extend(&mut read_write, &host.devices);
        let mut env: Vec<(String, String)> = Vec::new();
        push_variable(&mut env, "PATH", self.path.as_str());
        push_variable(&mut env, "HOME", self.home_dir.as_str());
        push_variable(&mut env, "TMPDIR", self.temp_dir.as_str());
        push_variable(&mut env, "GIT_TERMINAL_PROMPT", "0");
        push_variable(&mut env, "GIT_ASKPASS", "/bin/false");
        push_variable(&mut env, "SSH_ASKPASS", "/bin/false");
        if let Some(dir) = &self.rustup_home {
            push_variable(&mut env, "RUSTUP_HOME", dir.as_str());
        }
        let ghost own = own_environment(self@);
        assert(pairs(env@) =~= own);
        let mut i: usize = 0;
        assert(own + pairs(host.passed@).take(0) =~= own);
        while i < host.passed.len()
            invariant
                i <= host.passed@.len(),
                pairs(env@) == own + pairs(host.passed@).take(i as int),
            decreases host.passed@.len() - i,
        {
            let ghost before = pairs(env@);
            push_variable(&mut env, host.passed[i].0.as_str(), host.passed[i].1.as_str());
            i += 1;
            assert(pairs(host.passed@).take(i as int) =~= pairs(host.passed@).take(i - 1).push(
                pairs(host.passed@)[i - 1],
            ));
            assert(pairs(env@) =~= own + pairs(host.passed@).take(i as int));
        }
        assert(pairs(host.passed@).take(host.passed@.len() as int) =~= pairs(host.passed@));
        SandboxCommand {
            args: all,
            current_dir: self.workspace.clone(),
            env,
            spec: SandboxSpec {
                read_only: clone_texts(&self.read_only),
                read_write,
                working_dir: self.workspace.clone(),
                namespace_root_base: self.namespace_root_base.clone(),
                network: self.network,
            },
        }
    }

    /// How a program without arguments is run.
    pub fn command(&self, host: &CommandHost, program: &str) -> (r: SandboxCommand)
        ensures
            r@ == launch(self@, *host, program@, Seq::empty()),
    {
        let none: Vec<String> = Vec::new();
        assert(texts(none@) =~= Seq::empty());
        self.launch_with(host, program, &none)
    }

    /// How a shell command is run.
    pub fn bash_command(&self, host: &CommandHost, command: &str) -> (r: SandboxCommand)
        ensures
            r@ == launch(self@, *host, "/bin/bash"@, seq!["-lc"@, command@]),
    {
        self.launch_with(host, "/bin/bash", &words2("-lc", command))
    }

    /// How a file is read.
    pub fn read_file(&self, host: &CommandHost, raw: &str) -> (r: SandboxCommand)
        ensures
            r@ == launch(
                self@,
                *host,
                "/bin/cat"@,
                seq!["--"@, joined_path(self@.workspace, raw@)],
            ),
    {
        let path = self.visible_path(raw);
        self.launch_with(host, "/bin/cat", &words2("--", path.as_str()))
    }

    /// How a file is written. Its content goes to standard input.
    pub fn write_file(&self, host: &CommandHost, raw: &str) -> (r: SandboxCommand)
        ensures
            r@ == launch(
                self@,
                *host,
                "/bin/sh"@,
                seq![
                    "-c"@,
                    WRITE_SCRIPT@,
                    "pc-write"@,
                    joined_path(self@.workspace, raw@),
                ],
            ),
    {
        let path = self.visible_path(raw);
        self.launch_with(
            host,
            "/bin/sh",
            &crate::text::words4("-c", WRITE_SCRIPT, "pc-write", path.as_str()),
        )
    }

    /// How it is found out whether the sandbox works.
    pub fn probe(&self, host: &CommandHost) -> (r: SandboxCommand)
        ensures
            r@ == launch(self@, *host, "/bin/true"@, Seq::empty()),
    {
        self.command(host, "/bin/true")
    }
}

/// What a command says where it fails.
pub open spec fn complaint(what: Seq<char>, stderr: Seq<u8>) -> Seq<char> {
    what + ": "@ + trimmed(lossy_text(stderr))
}

/// What comes of a command: nothing to say where it succeeds, else what it was about and what
/// it printed.
pub fn check_outcome(success: bool, what: &str, stderr: &Vec<u8>) -> (r: Result<(), String>)
    ensures
        match r {
            Ok(()) => success,
            Err(m) => !success && m@ == complaint(what@, stderr@),
        },
        r is Err && valid_utf8(stderr@) ==> lossy_text(stderr@) == decode_utf8(stderr@),
{
    if success {
        return Ok(());
    }
    let text = decode_lossy(stderr);
    let text = trim(text.as_str());
    Err(concat3(what, ": ", text.as_str()))
}

/// What a read is about.
pub fn reading(path: &str) -> (r: String)
    ensures
        r@ == "sandbox read "@ + path@,
{
    concat("sandbox read ", path)
}

/// What a write is about.
pub fn writing(path: &str) -> (r: String)
    ensures
        r@ == "sandbox write "@ + path@,
{
    concat("sandbox write ", path)
}

/// What the probe is about.
pub const PROBING: &'static str = "pc safe sandbox unavailable (fail-closed)";

/// A command may write to the workspace, to the sandbox's own directories and to the devices,
/// and to nothing else.
pub proof fn lemma_writable_places(
    s: Sandbox,
    host: CommandHost,
    program: Seq<char>,
    args: Seq<Seq<char>>,
    p: Seq<char>,
)
    requires
        launch(s, host, program, args).read_write.contains(p),
    ensures
        p == s.workspace || p == s.temp_dir || p == s.home_dir || texts(host.devices@).contains(p),
{
    let all = launch(s, host, program, args).read_write;
    let k = choose|k: int| 0 <= k < all.len() && all[k] == p;
    if k >= 3 {
        assert(texts(host.devices@)[k - 3] == p);
    }
}

/// What lies under a path that lies under a third one lies under that one too.
proof fn lemma_under_is_transitive(a: Seq<char>, b: Seq<char>, c: Seq<char>)
    requires
        lies_under(a, b),
        lies_under(b, c),
    ensures
        lies_under(a, c),
{
    let (x, y, z) = (components(a), components(b), components(c));
    assert(x.take(z.len() as int) =~= x.take(y.len() as int).take(z.len() as int));
}

/// A workspace that is the home directory or holds it does not hide credentials.
pub proof fn lemma_home_as_workspace_is_refused(f: Findings)
    requires
        holds_home(f.workspace@, f.home.deep_view()),
    ensures
        !hides_credentials(f),
{
    let home = f.home.deep_view()->0;
    reveal_strlit(".ssh");
    assert(secrets_in(home)[0] == joined_path(home, ".ssh"@));
    lemma_paths_start_at_the_directory(home, ".ssh"@);
    lemma_under_is_transitive(joined_path(home, ".ssh"@), home, f.workspace@);
    assert(overlap(credential_places(f)[0], f.workspace@));
    assert(exposes(touchable(f)[0], credential_places(f)));
}

/// Of two paths that a third one lies under, one is the other or lies under it.
proof fn lemma_holders_overlap(p: Seq<char>, a: Seq<char>, b: Seq<char>)
    requires
        lies_under(p, a),
        lies_under(p, b),
    ensures
        overlap(a, b),
{
    let (x, y, z) = (components(p), components(a), components(b));
    if y.len() <= z.len() {
        assert(z.take(y.len() as int) =~= x.take(z.len() as int).take(y.len() as int));
        assert(x.take(z.len() as int).take(y.len() as int) =~= x.take(y.len() as int));
    } else {
        assert(y.take(z.len() as int) =~= x.take(y.len() as int).take(z.len() as int));
        assert(x.take(y.len() as int).take(z.len() as int) =~= x.take(z.len() as int));
    }
}

/// `protect_secrets` hides the places for credentials in safe mode: where a sandbox may be set
/// up, none of the places is, lies under or holds anything that a command may read or write,
/// but for the devices.
pub proof fn lemma_credentials_are_hidden(
    f: Findings,
    network: bool,
    host: CommandHost,
    program: Seq<char>,
    args: Seq<Seq<char>>,
    p: Seq<char>,
    place: Seq<char>,
)
    requires
        hides_credentials(f),
        launch(sandbox_for(f, network, true), host, program, args).read_only.contains(p)
            || launch(sandbox_for(f, network, true), host, program, args).read_write.contains(p),
        !texts(host.devices@).contains(p),
        credential_places(f).contains(place),
    ensures
        !lies_under(place, p),
        !lies_under(p, place),
{
    let s = sandbox_for(f, network, true);
    let places = credential_places(f);
    let all = readable(f, true);
    let k = choose|k: int| 0 <= k < places.len() && places[k] == place;
    if launch(s, host, program, args).read_only.contains(p) {
        lemma_path_set(all);
        assert(all.contains(p));
        let n = choose|n: int| 0 <= n < all.len() && all[n] == p;
        assert(touchable(f)[n + 2] == p);
        assert(!overlap(places[k], p));
    } else {
        lemma_writable_places(s, host, program, args, p);
        assert(touchable(f)[0] == f.workspace@);
        assert(touchable(f)[1] == f.temp_dir@);
        assert(!overlap(places[k], f.workspace@));
        assert(!overlap(places[k], f.temp_dir@));
        if p == s.home_dir {
            reveal_strlit("home");
            lemma_paths_start_at_the_directory(f.temp_dir@, "home"@);
            if lies_under(place, p) {
                lemma_under_is_transitive(place, p, f.temp_dir@);
            }
            if lies_under(p, place) {
                lemma_holders_overlap(p, place, f.temp_dir@);
            }
        }
    }
}

// ---------------------------------------------------------------------------------------
// What commands see

/// Each directory of the search path is kept at its place, unless the home directory is or lies
/// in it.
pub proof fn lemma_search_path_is_narrowed(
    before: Seq<Seq<char>>,
    dir: Seq<char>,
    after: Seq<Seq<char>>,
    home: Option<Seq<char>>,
)
    ensures
        narrow_dirs(Seq::empty(), home) == Seq::<Seq<char>>::empty(),
        home matches Some(h) && lies_under(h, dir) ==> narrow_dirs(
            before + seq![dir] + after,
            home,
        ) == narrow_dirs(before, home) + narrow_dirs(after, home),
        !(home matches Some(h) && lies_under(h, dir)) ==> narrow_dirs(
            before + seq![dir] + after,
            home,
        ) == narrow_dirs(before, home) + seq![dir] + narrow_dirs(after, home),
    decreases after.len(),
{
    let all = before + seq![dir] + after;
    let b = narrow_dirs(before, home);
    if after.len() == 0 {
        assert(all.drop_last() =~= before);
        assert(narrow_dirs(after, home) =~= Seq::<Seq<char>>::empty());
        assert(b + narrow_dirs(after, home) =~= b);
        assert(b.push(dir) =~= b + seq![dir] + narrow_dirs(after, home));
    } else {
        lemma_search_path_is_narrowed(before, dir, after.drop_last(), home);
        assert(all.drop_last() =~= before + seq![dir] + after.drop_last());
        assert(all.last() == after.last());
        let rest = narrow_dirs(after.drop_last(), home);
        let last = after.last();
        assert((b + rest).push(last) =~= b + rest.push(last));
        assert((b + seq![dir] + rest).push(last) =~= b + seq![dir] + rest.push(last));
    }
}

proof fn lemma_narrow_keeps(dirs: Seq<Seq<char>>, home: Option<Seq<char>>, p: Seq<char>)
    requires
        dirs.contains(p),
        !holds_home(p, home),
    ensures
        narrow_dirs(dirs, home).contains(p),
{
    let k = choose|k: int| 0 <= k < dirs.len() && dirs[k] == p;
    let (before, after) = (dirs.take(k), dirs.skip(k + 1));
    assert(dirs =~= before + seq![p] + after);
    lemma_search_path_is_narrowed(before, p, after, home);
    assert(narrow_dirs(dirs, home)[narrow_dirs(before, home).len() as int] == p);
}

/// Everything that was found can be read: the system's places, the directories of the search
/// path that do not hold the home directory, the Rust toolchains, and the places for credentials
/// where they are not protected. Nothing else can.
pub proof fn lemma_what_commands_can_read(
    f: Findings,
    network: bool,
    protect: bool,
    p: Seq<char>,
)
    ensures
        ({
            let readable = sandbox_for(f, network, protect).read_only;
            let meant = {
                ||| texts(f.system@).contains(p)
                ||| texts(f.search_dirs@).contains(p) && !(f.home.deep_view() matches Some(h)
                    && lies_under(h, p))
                ||| f.rustup_home.deep_view() == Some(p)
                ||| !protect && f.home is Some && texts(f.secrets@).contains(p)
            };
            &&& meant ==> exists|q: Seq<char>| #[trigger]
                readable.contains(q) && components(q) == components(p)
            &&& readable.contains(p) ==> meant
        }),
{
    let all = readable(f, protect);
    let set = sandbox_for(f, network, protect).read_only;
    lemma_readable(f, protect, p);
    lemma_path_set(all);
    assert(set == path_set(all));
    if set.contains(p) {
        assert(all.contains(p));
    }
    if all.contains(p) {
        let k = choose|k: int| 0 <= k < all.len() && all[k] == p;
        let q = choose|q: Seq<char>| #[trigger]
            path_set(all).contains(q) && components(q) == components(all[k]);
        assert(path_set(all).contains(q) && components(q) == components(all[k]));
        assert(set.contains(q));
        assert(components(q) == components(p));
    }
    assert((f.home.deep_view() matches Some(h) && lies_under(h, p)) == holds_home(
        p,
        f.home.deep_view(),
    ));
}

proof fn lemma_readable(f: Findings, protect: bool, p: Seq<char>)
    ensures
        readable(f, protect).contains(p) <==> {
            ||| texts(f.system@).contains(p)
            ||| texts(f.search_dirs@).contains(p) && !holds_home(p, f.home.deep_view())
            ||| f.rustup_home.deep_view() == Some(p)
            ||| !protect && f.home is Some && texts(f.secrets@).contains(p)
        },
{
    let home = f.home.deep_view();
    let a = texts(f.system@);
    let b = narrow_dirs(texts(f.search_dirs@), home);
    let c = as_list(f.rustup_home.deep_view());
    let d = if protect || f.home is None {
        Seq::<Seq<char>>::empty()
    } else {
        texts(f.secrets@)
    };
    assert(readable(f, protect) == a + b + c + d);
    lemma_in_either(a, b, p);
    lemma_in_either(a + b, c, p);
    lemma_in_either(a + b + c, d, p);
    if b.contains(p) {
        lemma_narrow(texts(f.search_dirs@), home, p);
    }
    if texts(f.search_dirs@).contains(p) && !holds_home(p, home) {
        lemma_narrow_keeps(texts(f.search_dirs@), home, p);
    }
    if f.rustup_home.deep_view() == Some(p) {
        assert(c[0] == p);
    }
}

proof fn lemma_in_either(a: Seq<Seq<char>>, b: Seq<Seq<char>>, p: Seq<char>)
    ensures
        (a + b).contains(p) <==> a.contains(p) || b.contains(p),
{
    let all = a + b;
    if all.contains(p) {
        let k = choose|k: int| 0 <= k < all.len() && all[k] == p;
        if k < a.len() {
            assert(a[k] == p);
        } else {
            assert(b[k - a.len()] == p);
        }
    }
    if a.contains(p) {
        let k = choose|k: int| 0 <= k < a.len() && a[k] == p;
        assert(all[k] == p);
    }
    if b.contains(p) {
        let k = choose|k: int| 0 <= k < b.len() && b[k] == p;
        assert(all[a.len() + k] == p);
    }
}

/// Where a sandbox is: in the directories that were found, with a home directory and the roots of
/// namespaces of its own in its directory for temporary files.
pub proof fn lemma_where_a_sandbox_is(f: Findings, network: bool, protect: bool)
    ensures
        ({
            let s = sandbox_for(f, network, protect);
            let temp = f.temp_dir@;
            &&& s.workspace == f.workspace@
            &&& s.temp_dir == temp
            &&& s.path == f.path@
            &&& s.rustup_home == f.rustup_home.deep_view()
            &&& s.network == network
            &&& temp.len() > 0 && temp.last() != '/' ==> s.home_dir == temp + "/home"@
                && s.namespace_root_base == temp + "/sandbox-roots"@
        }),
{
    reveal_strlit("home");
    reveal_strlit("/home");
    reveal_strlit("sandbox-roots");
    reveal_strlit("/sandbox-roots");
    let temp = f.temp_dir@;
    lemma_joined_path(temp, "home"@);
    lemma_joined_path(temp, "sandbox-roots"@);
    assert(temp + seq!['/'] + "home"@ =~= temp + "/home"@);
    assert(temp + seq!['/'] + "sandbox-roots"@ =~= temp + "/sandbox-roots"@);
}

/// The places for credentials: nine of them in the home directory, and where links lead to.
/// Without a home directory there are none.
pub proof fn lemma_credential_places(f: Findings, place: Seq<char>)
    ensures
        f.home is None ==> !credential_places(f).contains(place),
        f.home is Some ==> {
            let home = f.home->0@;
            credential_places(f).contains(place) <==> {
                ||| texts(f.secrets@).contains(place)
                ||| place == joined_path(home, ".ssh"@)
                ||| place == joined_path(home, ".aws"@)
                ||| place == joined_path(home, ".config/gh"@)
                ||| place == joined_path(home, ".config/gcloud"@)
                ||| place == joined_path(home, ".git-credentials"@)
                ||| place == joined_path(home, ".netrc"@)
                ||| place == joined_path(home, ".npmrc"@)
                ||| place == joined_path(home, ".docker/config.json"@)
                ||| place == joined_path(home, ".kube/config"@)
            }
        },
{
    if f.home is Some {
        let home = f.home->0@;
        let fixed = secrets_in(home);
        let found = texts(f.secrets@);
        let all = credential_places(f);
        assert(f.home.deep_view() == Some(home));
        assert(all =~= fixed + found);
        assert(fixed.len() == 9);
        assert(all[0] == joined_path(home, ".ssh"@));
        assert(all[1] == joined_path(home, ".aws"@));
        assert(all[2] == joined_path(home, ".config/gh"@));
        assert(all[3] == joined_path(home, ".config/gcloud"@));
        assert(all[4] == joined_path(home, ".git-credentials"@));
        assert(all[5] == joined_path(home, ".netrc"@));
        assert(all[6] == joined_path(home, ".npmrc"@));
        assert(all[7] == joined_path(home, ".docker/config.json"@));
        assert(all[8] == joined_path(home, ".kube/config"@));
        if all.contains(place) {
            let k = choose|k: int| 0 <= k < all.len() && all[k] == place;
            if k >= 9 {
                assert(found[k - 9] == place);
            }
        }
        if found.contains(place) {
            let k = choose|k: int| 0 <= k < found.len() && found[k] == place;
            assert(all[k + 9] == place);
        }
    }
}

/// When a sandbox may be set up with credentials protected: no place for credentials is, holds or
/// lies under the workspace, the directory for temporary files or anything that commands can
/// read.
pub proof fn lemma_when_credentials_are_hidden(f: Findings)
    ensures
        hides_credentials(f) <==> forall|p: Seq<char>, place: Seq<char>|
            (p == f.workspace@ || p == f.temp_dir@ || #[trigger] readable(f, true).contains(p))
                && #[trigger] credential_places(f).contains(place) ==> !lies_under(p, place)
                && !lies_under(place, p),
{
    let all = touchable(f);
    let open = readable(f, true);
    let places = credential_places(f);
    assert(all[0] == f.workspace@ && all[1] == f.temp_dir@);
    if hides_credentials(f) {
        assert forall|p: Seq<char>, place: Seq<char>|
            (p == f.workspace@ || p == f.temp_dir@ || #[trigger] open.contains(p))
                && #[trigger] places.contains(place) implies !lies_under(p, place) && !lies_under(
            place,
            p,
        ) by {
            let k = choose|k: int| 0 <= k < places.len() && places[k] == place;
            if open.contains(p) {
                let n = choose|n: int| 0 <= n < open.len() && open[n] == p;
                assert(all[n + 2] == p);
            }
            assert(!exposes(p, places));
            assert(!overlap(places[k], p));
        }
    } else {
        let i = choose|i: int|
            0 <= i < all.len() && exposes(#[trigger] all[i], places);
        let k = choose|k: int| 0 <= k < places.len() && overlap(#[trigger] places[k], all[i]);
        let (p, place) = (all[i], places[k]);
        if i >= 2 {
            assert(open[i - 2] == p);
        }
        assert(places.contains(place));
        assert(open.contains(p) || p == f.workspace@ || p == f.temp_dir@);
        assert(lies_under(p, place) || lies_under(place, p));
    }
}

/// The environment of a command: its search path, its own directories, and answers for programs
/// that would ask for a password; where the Rust toolchains are, if they are known; and then what
/// is handed on. Nothing else.
pub proof fn lemma_environment_of_a_command(
    s: Sandbox,
    host: CommandHost,
    program: Seq<char>,
    args: Seq<Seq<char>>,
)
    ensures
        ({
            let env = launch(s, host, program, args).env;
            let own = seq![
                ("PATH"@, s.path),
                ("HOME"@, s.home_dir),
                ("TMPDIR"@, s.temp_dir),
                ("GIT_TERMINAL_PROMPT"@, "0"@),
                ("GIT_ASKPASS"@, "/bin/false"@),
                ("SSH_ASKPASS"@, "/bin/false"@),
            ];
            &&& s.rustup_home is None ==> env == own + pairs(host.passed@)
            &&& s.rustup_home matches Some(dir) ==> env == own + seq![("RUSTUP_HOME"@, dir)]
                + pairs(host.passed@)
        }),
        passed_names() == seq![
            "LANG"@,
            "LC_ALL"@,
            "TERM"@,
            "TZ"@,
            "SSL_CERT_FILE"@,
            "SSL_CERT_DIR"@,
            "NODE_EXTRA_CA_CERTS"@,
        ],
{
    if let Some(dir) = s.rustup_home {
        let env = own_environment(s);
        assert(env =~= env.drop_last() + seq![("RUSTUP_HOME"@, dir)]);
    }
}

/// How a command is started: the program and all of its arguments behind the marker, in the
/// workspace, with every path that the sandbox lets it read, and with the workspace, the
/// sandbox's own directories and all of the devices to write to.
pub proof fn lemma_how_a_command_is_started(
    s: Sandbox,
    host: CommandHost,
    program: Seq<char>,
    args: Seq<Seq<char>>,
    device: Seq<char>,
)
    ensures
        ({
            let l = launch(s, host, program, args);
            &&& l.args == seq!["__pc-sandbox-exec"@, program] + args
            &&& l.current_dir == s.workspace
            &&& l.working_dir == s.workspace
            &&& l.namespace_root_base == s.namespace_root_base
            &&& l.network == s.network
            &&& l.read_only == s.read_only
            &&& l.read_write.contains(s.workspace)
            &&& l.read_write.contains(s.temp_dir)
            &&& l.read_write.contains(s.home_dir)
            &&& texts(host.devices@).contains(device) ==> l.read_write.contains(device)
        }),
        SPEC_ENV@ == "PC_SANDBOX_SPEC"@,
{
    let all = launch(s, host, program, args).read_write;
    let devices = texts(host.devices@);
    assert(all[0] == s.workspace && all[1] == s.temp_dir && all[2] == s.home_dir);
    if devices.contains(device) {
        let k = choose|k: int| 0 <= k < devices.len() && devices[k] == device;
        assert(all[k + 3] == device);
    }
}

/// What every command may read of the system.
pub proof fn lemma_places_of_the_system(place: Seq<char>)
    ensures
        system_places().contains(place) <==> {
            ||| place == "/usr"@
            ||| place == "/bin"@
            ||| place == "/sbin"@
            ||| place == "/lib"@
            ||| place == "/lib64"@
            ||| place == "/etc/ld.so.cache"@
            ||| place == "/etc/resolv.conf"@
            ||| place == "/etc/hosts"@
            ||| place == "/etc/nsswitch.conf"@
            ||| place == "/etc/ssl"@
            ||| place == "/etc/ca-certificates"@
        },
{
    let all = system_places();
    assert(all[0] == "/usr"@ && all[1] == "/bin"@ && all[2] == "/sbin"@ && all[3] == "/lib"@
        && all[4] == "/lib64"@ && all[5] == "/etc/ld.so.cache"@ && all[6] == "/etc/resolv.conf"@
        && all[7] == "/etc/hosts"@ && all[8] == "/etc/nsswitch.conf"@ && all[9] == "/etc/ssl"@
        && all[10] == "/etc/ca-certificates"@);
}

/// What a failed helper is reported with: what was tried, and what it said without the white
/// space around it.
pub proof fn lemma_complaint(what: Seq<char>, stderr: Seq<u8>)
    ensures
        complaint(what, stderr) == what + ": "@ + trimmed(lossy_text(stderr)),
{
}

/// What the start of a command holds, field by field, and what is said where credentials cannot
/// be hidden.
pub proof fn lemma_what_a_command_is_given(c: SandboxCommand, path: Seq<char>)
    ensures
        c@.args == texts(c.args@),
        c@.current_dir == c.current_dir@,
        c@.env == pairs(c.env@),
        c@.read_only == texts(c.spec.read_only@),
        c@.read_write == texts(c.spec.read_write@),
        c@.working_dir == c.spec.working_dir@,
        c@.namespace_root_base == c.spec.namespace_root_base@,
        c@.network == c.spec.network,
        exposing(path) == "protect_secrets cannot hide the credentials under "@ + path,
{
}

} // verus!
