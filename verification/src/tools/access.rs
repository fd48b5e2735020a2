//! Which files the tools may touch, and how.

use vstd::prelude::*;

use crate::config::SecurityConfig;
use crate::config::SecurityMode;
use crate::paths::folded;
use crate::paths::goes_under;
use crate::paths::is_under;
use crate::paths::join;
use crate::paths::joined_path;
use crate::paths::leads_under;
use crate::paths::lies_under;
use crate::text::concat3;
use crate::text::texts;

verus! {

/// Where credentials are commonly kept, as paths in a home directory.
pub open spec fn secret_places() -> Seq<Seq<char>> {
    seq![
        ".ssh"@,
        ".aws"@,
        ".config/gh"@,
        ".config/gcloud"@,
        ".git-credentials"@,
        ".netrc"@,
        ".npmrc"@,
        ".docker/config.json"@,
        ".kube/config"@,
    ]
}

/// Where credentials are commonly kept, as paths in a home directory.
pub fn secret_locations() -> (r: Vec<String>)
    ensures
        texts(r@) == secret_places(),
{
    let mut out: Vec<String> = Vec::new();
    out.push(".ssh".to_owned());
    out.push(".aws".to_owned());
    out.push(".config/gh".to_owned());
    out.push(".config/gcloud".to_owned());
    out.push(".git-credentials".to_owned());
    out.push(".netrc".to_owned());
    out.push(".npmrc".to_owned());
    out.push(".docker/config.json".to_owned());
    out.push(".kube/config".to_owned());
    assert(texts(out@) =~= secret_places());
    out
}

/// Whether the path, as it is written or once `..` is taken into account, is the place or lies
/// under it.
pub open spec fn reaches(path: Seq<char>, place: Seq<char>) -> bool {
    lies_under(path, place) || leads_under(path, place)
}

/// Whether the path reaches one of the places for credentials in the home directory.
pub open spec fn is_secret(path: Seq<char>, home: Seq<char>) -> bool {
    exists|i: int|
        0 <= i < secret_places().len() && reaches(
            path,
            joined_path(home, #[trigger] secret_places()[i]),
        )
}

/// Whether the path reaches credentials that are protected. This goes by the path's text alone:
/// a link on the way is not seen.
pub open spec fn is_protected(path: Seq<char>, protect: bool, home: Option<Seq<char>>) -> bool {
    protect && (home matches Some(h) && is_secret(path, h))
}

/// The message for a protected path.
pub open spec fn blocked(path: Seq<char>) -> Seq<char> {
    "access to "@ + path + " is blocked by protect_secrets"@
}

/// Refuses a path to credentials where they are protected. `home` is the value of the
/// environment variable `HOME`.
pub fn ensure_secret_access(path: &str, protect_secrets: bool, home: &Option<String>) -> (r: Result<
    (),
    String,
>)
    ensures
        match r {
            Ok(()) => !is_protected(path@, protect_secrets, home.deep_view()),
            Err(m) => is_protected(path@, protect_secrets, home.deep_view()) && m@ == blocked(
                path@,
            ),
        },
{
    if !protect_secrets {
        return Ok(());
    }
    let dir = match home {
        Some(home) => home.as_str(),
        None => {
            return Ok(());
        },
    };
    let places = secret_locations();
    let mut i: usize = 0;
    while i < places.len()
        invariant
            i <= places@.len(),
            texts(places@) == secret_places(),
            protect_secrets,
            home.deep_view() == Some(dir@),
            forall|j: int|
                0 <= j < i ==> !reaches(
                    path@,
                    joined_path(dir@, #[trigger] secret_places()[j]),
                ),
        decreases places@.len() - i,
    {
        let place = join(dir, places[i].as_str());
        assert(secret_places()[i as int] == places@[i as int]@);
        if is_under(path, place.as_str()) || goes_under(path, place.as_str()) {
            assert(is_secret(path@, dir@));
            return Err(concat3("access to ", path, " is blocked by protect_secrets"));
        }
        i += 1;
    }
    assert(!is_secret(path@, dir@));
    Ok(())
}

/// The path that a tool's argument stands for: a relative path starts at the workspace.
pub fn resolve_path(workspace: &str, raw: &str) -> (r: String)
    ensures
        r@ == joined_path(workspace@, raw@),
{
    join(workspace, raw)
}

/// How a tool gets at a file.
#[derive(Debug)]
pub enum FileAccess {
    /// Through the sandbox, under the path that the caller gave.
    Sandbox,
    /// Directly, under the given path.
    Host(String),
}

/// What the tools know of the host when they look for a file.
#[derive(Debug)]
pub struct Surroundings {
    pub workspace: String,
    pub security: SecurityConfig,
    /// Whether the sandbox is running.
    pub sandboxed: bool,
    /// The value of the environment variable `HOME`.
    pub home: Option<String>,
}

/// The message where a sandbox is needed and none is running.
pub const NO_SANDBOX: &'static str = "safe sandbox is not running";

/// How a tool gets at a file, as a mathematical value: under a path of the host or, where there
/// is none, through the sandbox; or why it does not.
pub open spec fn access_view(r: Result<FileAccess, String>) -> Result<
    Option<Seq<char>>,
    Seq<char>,
> {
    match r {
        Ok(FileAccess::Sandbox) => Ok(None),
        Ok(FileAccess::Host(p)) => Ok(Some(p@)),
        Err(m) => Err(m@),
    }
}

/// How the read tool gets at a file.
pub open spec fn read_plan(around: Surroundings, raw: Seq<char>) -> Result<
    Option<Seq<char>>,
    Seq<char>,
> {
    let path = joined_path(around.workspace@, raw);
    match around.security.mode {
        SecurityMode::Safe => if around.sandboxed {
            Ok(None)
        } else {
            Err(NO_SANDBOX@)
        },
        SecurityMode::Full => Ok(Some(path)),
        SecurityMode::Readonly => if is_protected(
            path,
            around.security.protect_secrets,
            around.home.deep_view(),
        ) {
            Err(blocked(path))
        } else {
            Ok(Some(path))
        },
    }
}

/// How the read tool gets at a file.
pub fn read_access(around: &Surroundings, raw: &str) -> (r: Result<FileAccess, String>)
    ensures
        access_view(r) == read_plan(*around, raw@),
{
    let path = resolve_path(around.workspace.as_str(), raw);
    match around.security.mode {
        SecurityMode::Safe => sandbox_access(around.sandboxed),
        SecurityMode::Full => Ok(FileAccess::Host(path)),
        SecurityMode::Readonly => {
            match ensure_secret_access(
                path.as_str(),
                around.security.protect_secrets,
                &around.home,
            ) {
                Ok(()) => Ok(FileAccess::Host(path)),
                Err(m) => Err(m),
            }
        },
    }
}

/// A file that exists, with all links followed: its own path, that of the home directory and
/// those of the places for credentials.
#[derive(Debug)]
pub struct RealFile {
    pub path: String,
    pub home: Option<String>,
    pub secrets: Vec<String>,
}

/// Whether the path reaches one of the given places.
pub open spec fn reaches_any(path: Seq<char>, places: Seq<Seq<char>>) -> bool {
    exists|i: int| 0 <= i < places.len() && reaches(path, #[trigger] places[i])
}

/// Whether a file that exists is one of the credentials that are protected.
pub open spec fn is_protected_file(file: RealFile, protect: bool, home: Option<Seq<char>>) -> bool {
    protect && (is_protected(file.path@, protect, home) || is_protected(
        file.path@,
        protect,
        file.home.deep_view(),
    ) || reaches_any(file.path@, texts(file.secrets@)))
}

/// Whether the path reaches one of the given places.
fn reaches_place(path: &str, places: &Vec<String>) -> (r: bool)
    ensures
        r == reaches_any(path@, texts(places@)),
{
    let mut i: usize = 0;
    while i < places.len()
        invariant
            i <= places@.len(),
            forall|j: int| 0 <= j < i ==> !reaches(path@, #[trigger] texts(places@)[j]),
        decreases places@.len() - i,
    {
        let place = places[i].as_str();
        assert(texts(places@)[i as int] == place@);
        if is_under(path, place) || goes_under(path, place) {
            return true;
        }
        i += 1;
    }
    false
}

/// How the read tool gets at a file, given where all links lead where the file exists. In
/// readonly mode neither the path as it is written nor the file that it leads to may be one of
/// the protected credentials.
pub fn real_read_access(around: &Surroundings, raw: &str, found: &Option<RealFile>) -> (r: Result<
    FileAccess,
    String,
>)
    ensures
        access_view(r) == (match *found {
            Some(file) => if around.security.mode == SecurityMode::Readonly && is_protected_file(
                file,
                around.security.protect_secrets,
                around.home.deep_view(),
            ) {
                Err(blocked(joined_path(around.workspace@, raw@)))
            } else {
                read_plan(*around, raw@)
            },
            None => read_plan(*around, raw@),
        }),
{
    let access = read_access(around, raw);
    let protect = around.security.protect_secrets;
    if around.security.mode != SecurityMode::Readonly || !protect {
        return access;
    }
    let file = match found {
        Some(file) => file,
        None => {
            return access;
        },
    };
    let path = file.path.as_str();
    let hidden = ensure_secret_access(path, protect, &around.home).is_err()
        || ensure_secret_access(path, protect, &file.home).is_err() || reaches_place(
        path,
        &file.secrets,
    );
    if hidden {
        let shown = resolve_path(around.workspace.as_str(), raw);
        Err(concat3("access to ", shown.as_str(), " is blocked by protect_secrets"))
    } else {
        access
    }
}

/// `protect_secrets` hides the places for credentials in readonly mode: no path that is handed
/// out, as it is written or with `..` taken into account, is one of them or lies under one.
pub proof fn lemma_readonly_hides_credentials(
    around: Surroundings,
    raw: Seq<char>,
    path: Seq<char>,
    i: int,
)
    requires
        around.security.mode == SecurityMode::Readonly,
        around.security.protect_secrets,
        around.home is Some,
        read_plan(around, raw) == Ok::<Option<Seq<char>>, Seq<char>>(Some(path)),
        0 <= i < secret_places().len(),
    ensures
        !lies_under(path, joined_path(around.home->0@, secret_places()[i])),
        !leads_under(path, joined_path(around.home->0@, secret_places()[i])),
{
    assert(!reaches(path, joined_path(around.home->0@, secret_places()[i])));
}

/// Going up and down again does not help: a path that `..` leads into one of the places for
/// credentials is refused like the place itself.
pub proof fn lemma_going_up_does_not_help(
    path: Seq<char>,
    direct: Seq<char>,
    home: Seq<char>,
    protect: bool,
)
    requires
        folded(path) == folded(direct),
        exists|i: int|
            0 <= i < secret_places().len() && leads_under(
                direct,
                joined_path(home, #[trigger] secret_places()[i]),
            ),
    ensures
        is_protected(path, protect, Some(home)) == protect,
{
    let i = choose|i: int|
        0 <= i < secret_places().len() && leads_under(
            direct,
            joined_path(home, #[trigger] secret_places()[i]),
        );
    assert(reaches(path, joined_path(home, secret_places()[i])));
}

/// Access through the sandbox, where one is running.
fn sandbox_access(sandboxed: bool) -> (r: Result<FileAccess, String>)
    ensures
        if sandboxed {
            r == Ok::<FileAccess, String>(FileAccess::Sandbox)
        } else {
            r matches Err(m) && m@ == NO_SANDBOX@
        },
{
    if sandboxed {
        Ok(FileAccess::Sandbox)
    } else {
        Err(NO_SANDBOX.to_owned())
    }
}

/// The message for a tool that does not work in readonly mode.
pub open spec fn disabled(tool: Seq<char>) -> Seq<char> {
    tool + " is disabled in readonly mode"@
}

/// Refuses a tool that changes something in readonly mode.
pub fn ensure_writable(mode: SecurityMode, tool: &str) -> (r: Result<(), String>)
    ensures
        match r {
            Ok(()) => mode != SecurityMode::Readonly,
            Err(m) => mode == SecurityMode::Readonly && m@ == disabled(tool@),
        },
{
    if mode == SecurityMode::Readonly {
        Err(crate::text::concat(tool, " is disabled in readonly mode"))
    } else {
        Ok(())
    }
}

/// How a tool that changes files gets at one.
pub fn write_access(around: &Surroundings, raw: &str, tool: &str) -> (r: Result<
    FileAccess,
    String,
>)
    ensures
        match around.security.mode {
            SecurityMode::Readonly => r matches Err(m) && m@ == disabled(tool@),
            SecurityMode::Safe => if around.sandboxed {
                r == Ok::<FileAccess, String>(FileAccess::Sandbox)
            } else {
                r matches Err(m) && m@ == NO_SANDBOX@
            },
            SecurityMode::Full => r matches Ok(FileAccess::Host(p)) && p@ == joined_path(
                around.workspace@,
                raw@,
            ),
        },
{
    match ensure_writable(around.security.mode, tool) {
        Ok(()) => {
            match around.security.mode {
                SecurityMode::Safe => sandbox_access(around.sandboxed),
                _ => Ok(FileAccess::Host(resolve_path(around.workspace.as_str(), raw))),
            }
        },
        Err(m) => Err(m),
    }
}

/// Which paths are protected: with the protection on and a home directory, those that are one of
/// nine places in it or lie under one, as they are written or with `..` taken into account. No
/// others.
pub proof fn lemma_what_is_protected(path: Seq<char>, home: Seq<char>, protect: bool)
    ensures
        ({
            let places = seq![
                ".ssh"@,
                ".aws"@,
                ".config/gh"@,
                ".config/gcloud"@,
                ".git-credentials"@,
                ".netrc"@,
                ".npmrc"@,
                ".docker/config.json"@,
                ".kube/config"@,
            ];
            &&& is_protected(path, protect, Some(home)) <==> protect && exists|i: int|
                0 <= i < 9 && (lies_under(path, joined_path(home, #[trigger] places[i]))
                    || leads_under(path, joined_path(home, places[i])))
        }),
        !is_protected(path, false, Some(home)),
        !is_protected(path, protect, None),
{
    let places = secret_places();
    if is_protected(path, protect, Some(home)) {
        let i = choose|i: int|
            0 <= i < secret_places().len() && reaches(
                path,
                joined_path(home, #[trigger] secret_places()[i]),
            );
        assert(lies_under(path, joined_path(home, places[i])) || leads_under(
            path,
            joined_path(home, places[i]),
        ));
    }
    if exists|i: int|
        0 <= i < 9 && (lies_under(path, joined_path(home, #[trigger] places[i])) || leads_under(
            path,
            joined_path(home, places[i]),
        )) {
        let i = choose|i: int|
            0 <= i < 9 && (lies_under(path, joined_path(home, #[trigger] places[i]))
                || leads_under(path, joined_path(home, places[i])));
        assert(reaches(path, joined_path(home, secret_places()[i])));
    }
}

/// How a file is read. With full access every path is read on the host, and in safe mode
/// everything goes through the sandbox or, where none is running, nowhere. In readonly mode a
/// path is read on the host unless it is protected. A path is taken as seen from the workspace.
pub proof fn lemma_how_a_file_is_read(around: Surroundings, raw: Seq<char>)
    ensures
        ({
            let path = joined_path(around.workspace@, raw);
            let plan = read_plan(around, raw);
            let hidden = is_protected(
                path,
                around.security.protect_secrets,
                around.home.deep_view(),
            );
            &&& around.security.mode == SecurityMode::Full ==> plan == Ok::<
                Option<Seq<char>>,
                Seq<char>,
            >(Some(path))
            &&& around.security.mode == SecurityMode::Safe && around.sandboxed ==> plan == Ok::<
                Option<Seq<char>>,
                Seq<char>,
            >(None)
            &&& around.security.mode == SecurityMode::Safe && !around.sandboxed ==> plan is Err
            &&& around.security.mode == SecurityMode::Readonly && hidden ==> plan == Err::<
                Option<Seq<char>>,
                Seq<char>,
            >("access to "@ + path + " is blocked by protect_secrets"@)
            &&& around.security.mode == SecurityMode::Readonly && !hidden ==> plan == Ok::<
                Option<Seq<char>>,
                Seq<char>,
            >(Some(path))
        }),
{
}

/// When a file that exists is protected: its own path, with all links followed, is protected
/// with the home directory as it is named or with all links in it followed, or it reaches one of
/// the places for credentials, wherever links put them.
pub proof fn lemma_when_a_real_file_is_protected(
    file: RealFile,
    home: Option<Seq<char>>,
    place: Seq<char>,
)
    ensures
        !is_protected_file(file, false, home),
        is_protected(file.path@, true, home) ==> is_protected_file(file, true, home),
        is_protected(file.path@, true, file.home.deep_view()) ==> is_protected_file(
            file,
            true,
            home,
        ),
        texts(file.secrets@).contains(place) && (lies_under(file.path@, place) || leads_under(
            file.path@,
            place,
        )) ==> is_protected_file(file, true, home),
        is_protected_file(file, true, home) ==> is_protected(file.path@, true, home)
            || is_protected(file.path@, true, file.home.deep_view()) || exists|p: Seq<char>|
            #[trigger] texts(file.secrets@).contains(p) && (lies_under(file.path@, p)
                || leads_under(file.path@, p)),
{
    let places = texts(file.secrets@);
    if places.contains(place) {
        let i = choose|i: int| 0 <= i < places.len() && places[i] == place;
        assert(reaches(file.path@, places[i]) ==> reaches_any(file.path@, places));
    }
    if reaches_any(file.path@, places) {
        let i = choose|i: int| 0 <= i < places.len() && reaches(file.path@, #[trigger] places[i]);
        assert(places.contains(places[i]));
    }
}

/// What is said of access: how it is granted, and what a tool is told that does not get it.
pub proof fn lemma_what_is_said_of_access(path: String, reason: String, tool: Seq<char>)
    ensures
        access_view(Ok(FileAccess::Sandbox)) == Ok::<Option<Seq<char>>, Seq<char>>(None),
        access_view(Ok(FileAccess::Host(path))) == Ok::<Option<Seq<char>>, Seq<char>>(Some(path@)),
        access_view(Err(reason)) == Err::<Option<Seq<char>>, Seq<char>>(reason@),
        disabled(tool) == tool + " is disabled in readonly mode"@,
        NO_SANDBOX@ == "safe sandbox is not running"@,
{
}

} // verus!
