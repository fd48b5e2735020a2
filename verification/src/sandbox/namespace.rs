//! Restricting the file system by a mount namespace, where the kernel has no Landlock.
//!
//! A new root is put together from the paths that the command may touch, and takes the place
//! of the old one.

use vstd::prelude::*;

use crate::paths::absolute;
use crate::paths::is_absolute;
use crate::paths::join;
use crate::paths::joined_path;
use crate::paths::lemma_joined_path;
use crate::sandbox::SandboxSpec;
use crate::text::chars_of;
use crate::text::concat;
use crate::text::decimal;
use crate::text::numeral;
use crate::text::slice_text;
use crate::text::texts;

verus! {

/// How the file system at the new root is set up.
pub const ROOT_OPTIONS: &'static str = "mode=0755,size=64m";

/// Where the old root goes while the new one takes its place.
pub const OLD_ROOT: &'static str = ".oldroot";

/// The directories at the root that may be symbolic links.
pub open spec fn root_aliases() -> Seq<Seq<char>> {
    seq!["bin"@, "sbin"@, "lib"@, "lib64"@]
}

/// What is done, one after the other.
#[derive(Debug)]
pub enum NamespaceStep {
    /// Become root in a user namespace.
    EnterUserNamespace,
    /// Remove the directory, where it exists, with what is in it.
    Clear(String),
    /// Make the directory and those above it.
    MakeDir(String),
    /// Leave the host's mount namespace.
    UnshareMounts,
    /// Keep mounts from spreading to the host.
    MakePrivate,
    /// Mount an empty file system on the directory.
    MountRoot(String),
    /// Make the source visible at the destination.
    Bind { source: String, destination: String, read_only: bool },
    /// Where the host's directory is a symbolic link, make the same link at the destination.
    MirrorLink { host: String, destination: String },
    /// Go to the directory.
    ChangeDir(String),
    /// Make the current directory the root, and move the old root.
    PivotRoot,
    /// Unmount what is mounted on the directory.
    Detach(String),
    /// Remove the empty directory.
    RemoveDir(String),
}

/// What is done, as a mathematical value.
pub enum Stage {
    EnterUserNamespace,
    Clear(Seq<char>),
    MakeDir(Seq<char>),
    UnshareMounts,
    MakePrivate,
    MountRoot(Seq<char>),
    Bind { source: Seq<char>, destination: Seq<char>, read_only: bool },
    MirrorLink { host: Seq<char>, destination: Seq<char> },
    ChangeDir(Seq<char>),
    PivotRoot,
    Detach(Seq<char>),
    RemoveDir(Seq<char>),
}

impl View for NamespaceStep {
    type V = Stage;

    open spec fn view(&self) -> Stage {
        match self {
            NamespaceStep::EnterUserNamespace => Stage::EnterUserNamespace,
            NamespaceStep::Clear(p) => Stage::Clear(p@),
            NamespaceStep::MakeDir(p) => Stage::MakeDir(p@),
            NamespaceStep::UnshareMounts => Stage::UnshareMounts,
            NamespaceStep::MakePrivate => Stage::MakePrivate,
            NamespaceStep::MountRoot(p) => Stage::MountRoot(p@),
            NamespaceStep::Bind { source, destination, read_only } => Stage::Bind {
                source: source@,
                destination: destination@,
                read_only: *read_only,
            },
            NamespaceStep::MirrorLink { host, destination } => Stage::MirrorLink {
                host: host@,
                destination: destination@,
            },
            NamespaceStep::ChangeDir(p) => Stage::ChangeDir(p@),
            NamespaceStep::PivotRoot => Stage::PivotRoot,
            NamespaceStep::Detach(p) => Stage::Detach(p@),
            NamespaceStep::RemoveDir(p) => Stage::RemoveDir(p@),
        }
    }
}

/// The views of a list of steps.
pub open spec fn stages(steps: Seq<NamespaceStep>) -> Seq<Stage> {
    steps.map_values(|s: NamespaceStep| s@)
}

/// The path without the slashes at its start.
pub open spec fn below_root(p: Seq<char>) -> Seq<char>
    decreases p.len(),
{
    if p.len() > 0 && p[0] == '/' {
        below_root(p.drop_first())
    } else {
        p
    }
}

/// Where a path of the host is found under the new root.
pub open spec fn bind_place(root: Seq<char>, source: Seq<char>) -> Seq<char> {
    joined_path(root, below_root(source))
}

/// Where a path of the host is found under the new root, or that it is not absolute.
pub fn bind_destination(root: &str, source: &str) -> (r: Result<String, String>)
    ensures
        match r {
            Ok(p) => absolute(source@) && p@ == bind_place(root@, source@),
            Err(m) => !absolute(source@) && m@ == "sandbox path must be absolute: "@ + source@,
        },
{
    if !is_absolute(source) {
        return Err(concat("sandbox path must be absolute: ", source));
    }
    let v = chars_of(source);
    let mut i: usize = 0;
    assert(v@.skip(0) =~= v@);
    while i < v.len() && v[i] == '/'
        invariant
            i <= v@.len(),
            below_root(source@) == below_root(v@.skip(i as int)),
        decreases v@.len() - i,
    {
        assert(v@.skip(i as int).drop_first() =~= v@.skip(i + 1));
        i += 1;
    }
    let relative = slice_text(&v, i, v.len());
    assert(relative@ =~= v@.skip(i as int));
    Ok(join(root, relative.as_str()))
}

/// The binds for paths of the host.
pub open spec fn binds(root: Seq<char>, sources: Seq<Seq<char>>, read_only: bool) -> Seq<Stage> {
    sources.map_values(
        |s: Seq<char>| Stage::Bind { source: s, destination: bind_place(root, s), read_only },
    )
}

/// The links at the root that are made again.
pub open spec fn mirrors(root: Seq<char>) -> Seq<Stage> {
    root_aliases().map_values(
        |n: Seq<char>|
            Stage::MirrorLink { host: joined_path("/"@, n), destination: joined_path(root, n) },
    )
}

/// The first path, from position `from` on, that is not absolute.
pub open spec fn first_relative(ps: Seq<Seq<char>>, from: int) -> Option<Seq<char>>
    decreases ps.len() - from,
{
    if from < 0 || from >= ps.len() {
        None
    } else if absolute(ps[from]) {
        first_relative(ps, from + 1)
    } else {
        Some(ps[from])
    }
}

/// The new root of a process.
pub open spec fn root_of(base: Seq<char>, pid: u32) -> Seq<char> {
    joined_path(base, numeral(pid as nat))
}

/// What is done before the paths are bound.
pub open spec fn stages_before(root: Seq<char>) -> Seq<Stage> {
    seq![
        Stage::EnterUserNamespace,
        Stage::Clear(root),
        Stage::MakeDir(root),
        Stage::UnshareMounts,
        Stage::MakePrivate,
        Stage::MountRoot(root),
    ]
}

/// What is done after the paths have been bound.
pub open spec fn stages_after(root: Seq<char>, working_dir: Seq<char>) -> Seq<Stage> {
    seq![
        Stage::MakeDir(joined_path(root, OLD_ROOT@)),
        Stage::ChangeDir(root),
        Stage::PivotRoot,
        Stage::ChangeDir("/"@),
        Stage::Detach(joined_path("/"@, OLD_ROOT@)),
        Stage::RemoveDir(joined_path("/"@, OLD_ROOT@)),
        Stage::ChangeDir(working_dir),
    ]
}

/// What is done to leave a process with nothing but the given paths.
pub open spec fn namespace_stages(
    read_only: Seq<Seq<char>>,
    read_write: Seq<Seq<char>>,
    base: Seq<char>,
    working_dir: Seq<char>,
    pid: u32,
) -> Seq<Stage> {
    let root = root_of(base, pid);
    stages_before(root) + binds(root, read_only, true) + binds(root, read_write, false) + mirrors(
        root,
    ) + stages_after(root, working_dir)
}

/// Appends the binds for paths of the host.
fn push_binds(steps: &mut Vec<NamespaceStep>, root: &str, sources: &Vec<String>, read_only: bool) -> (r:
    Result<(), String>)
    ensures
        match r {
            Ok(()) => first_relative(texts(sources@), 0) is None && stages(final(steps)@)
                == stages(old(steps)@) + binds(root@, texts(sources@), read_only),
            Err(m) => first_relative(texts(sources@), 0) matches Some(p) && m@
                == "sandbox path must be absolute: "@ + p,
        },
{
    let ghost ss = texts(sources@);
    let ghost f = |s: Seq<char>|
        Stage::Bind { source: s, destination: bind_place(root@, s), read_only };
    let mut i: usize = 0;
    assert(stages(steps@) =~= stages(old(steps)@) + ss.take(0).map_values(f));
    while i < sources.len()
        invariant
            i <= sources@.len(),
            ss == texts(sources@),
            f == (|s: Seq<char>|
                Stage::Bind { source: s, destination: bind_place(root@, s), read_only }),
            first_relative(ss, 0) == first_relative(ss, i as int),
            stages(steps@) == stages(old(steps)@) + ss.take(i as int).map_values(f),
        decreases sources@.len() - i,
    {
        let source = sources[i].as_str();
        assert(ss[i as int] == source@);
        match bind_destination(root, source) {
            Ok(destination) => {
                let ghost before = stages(steps@);
                steps.push(
                    NamespaceStep::Bind { source: source.to_owned(), destination, read_only },
                );
                assert(stages(steps@) =~= before.push(f(source@)));
                assert(ss.take(i + 1).map_values(f) =~= ss.take(i as int).map_values(f).push(
                    f(source@),
                ));
            },
            Err(m) => {
                return Err(m);
            },
        }
        i += 1;
    }
    assert(ss.take(ss.len() as int) =~= ss);
    Ok(())
}

/// Appends a link at the root that is made again.
fn push_mirror(steps: &mut Vec<NamespaceStep>, root: &str, name: &str)
    ensures
        stages(final(steps)@) == stages(old(steps)@).push(
            Stage::MirrorLink {
                host: joined_path("/"@, name@),
                destination: joined_path(root@, name@),
            },
        ),
{
    let host = join("/", name);
    let destination = join(root, name);
    let ghost s = Stage::MirrorLink { host: host@, destination: destination@ };
    steps.push(NamespaceStep::MirrorLink { host, destination });
    assert(stages(steps@) =~= stages(old(steps)@).push(s));
}

/// Lays out what is done to leave the process with nothing but what it may touch, or says
/// which of the paths is not absolute.
pub fn plan_namespace(spec: &SandboxSpec, pid: u32) -> (r: Result<Vec<NamespaceStep>, String>)
    ensures
        ({
            let ro = texts(spec.read_only@);
            let rw = texts(spec.read_write@);
            match (first_relative(ro, 0), first_relative(rw, 0)) {
                (Some(p), _) => r matches Err(m) && m@ == "sandbox path must be absolute: "@ + p,
                (None, Some(p)) => r matches Err(m) && m@ == "sandbox path must be absolute: "@
                    + p,
                (None, None) => r matches Ok(steps) && stages(steps@) == namespace_stages(
                    ro,
                    rw,
                    spec.namespace_root_base@,
                    spec.working_dir@,
                    pid,
                ),
            }
        }),
{
    let digits = decimal(pid as u64);
    let root_text = join(spec.namespace_root_base.as_str(), digits.as_str());
    let root = root_text.as_str();
    let mut steps: Vec<NamespaceStep> = Vec::new();
    steps.push(NamespaceStep::EnterUserNamespace);
    steps.push(NamespaceStep::Clear(root.to_owned()));
    steps.push(NamespaceStep::MakeDir(root.to_owned()));
    steps.push(NamespaceStep::UnshareMounts);
    steps.push(NamespaceStep::MakePrivate);
    steps.push(NamespaceStep::MountRoot(root.to_owned()));
    assert(stages(steps@) =~= stages_before(root@));
    match push_binds(&mut steps, root, &spec.read_only, true) {
        Ok(()) => {},
        Err(m) => {
            return Err(m);
        },
    }
    match push_binds(&mut steps, root, &spec.read_write, false) {
        Ok(()) => {},
        Err(m) => {
            return Err(m);
        },
    }
    let ghost bound = stages(steps@);
    push_mirror(&mut steps, root, "bin");
    push_mirror(&mut steps, root, "sbin");
    push_mirror(&mut steps, root, "lib");
    push_mirror(&mut steps, root, "lib64");
    assert(stages(steps@) =~= bound + mirrors(root@));
    let ghost mirrored = stages(steps@);
    let old_root = join(root, OLD_ROOT);
    let old_place = join("/", OLD_ROOT);
    let ghost kept = steps@;
    steps.push(NamespaceStep::MakeDir(old_root));
    steps.push(NamespaceStep::ChangeDir(root.to_owned()));
    steps.push(NamespaceStep::PivotRoot);
    steps.push(NamespaceStep::ChangeDir("/".to_owned()));
    steps.push(NamespaceStep::Detach(old_place.clone()));
    steps.push(NamespaceStep::RemoveDir(old_place));
    steps.push(NamespaceStep::ChangeDir(spec.working_dir.clone()));
    assert(stages(steps@) =~= mirrored + stages_after(root@, spec.working_dir@)) by {
        assert forall|i: int| 0 <= i < kept.len() implies stages(steps@)[i] == mirrored[i] by {
            assert(steps@[i] == kept[i]);
        }
    }
    Ok(steps)
}

/// What a bind needs at its destination and how it is done.
#[derive(Debug, Clone, Copy, PartialEq, Eq, Structural)]
pub struct BindShape {
    /// Make a directory at the destination. Else make the directory above it and an empty
    /// file.
    pub directory: bool,
    /// Bind what is mounted below the source too.
    pub recursive: bool,
}

/// What a bind of a directory or a file needs, and how it is done.
pub fn bind_shape(source_is_dir: bool) -> (r: BindShape)
    ensures
        r.directory == source_is_dir,
        r.recursive == source_is_dir,
{
    BindShape { directory: source_is_dir, recursive: source_is_dir }
}

/// Refuses a bind that could not be made read-only where the source can be written to.
pub fn check_read_only(source: &str, remounted: bool, writable: bool) -> (r: Result<(), String>)
    ensures
        match r {
            Ok(()) => remounted || !writable,
            Err(m) => !remounted && writable && m@
                == "read-only sandbox path is writable by pc: "@ + source@,
        },
{
    if !remounted && writable {
        Err(concat("read-only sandbox path is writable by pc: ", source))
    } else {
        Ok(())
    }
}

/// Nothing of the host is visible under the new root but the paths that the command may touch,
/// and those that it may only read are bound read-only.
pub proof fn lemma_only_listed_paths_are_bound(
    read_only: Seq<Seq<char>>,
    read_write: Seq<Seq<char>>,
    base: Seq<char>,
    working_dir: Seq<char>,
    pid: u32,
    i: int,
)
    requires
        0 <= i < namespace_stages(read_only, read_write, base, working_dir, pid).len(),
    ensures
        namespace_stages(read_only, read_write, base, working_dir, pid)[i] matches Stage::Bind {
            source,
            destination,
            read_only: locked,
        } ==> destination == bind_place(root_of(base, pid), source) && (if locked {
            read_only.contains(source)
        } else {
            read_write.contains(source)
        }),
{
    let root = root_of(base, pid);
    let a = stages_before(root);
    let b = binds(root, read_only, true);
    let c = binds(root, read_write, false);
    let d = mirrors(root);
    let all = namespace_stages(read_only, read_write, base, working_dir, pid);
    if a.len() <= i < a.len() + b.len() {
        assert(all[i] == b[i - a.len()]);
        assert(read_only.contains(read_only[i - a.len()]));
    } else if a.len() + b.len() <= i < a.len() + b.len() + c.len() {
        assert(all[i] == c[i - a.len() - b.len()]);
        assert(read_write.contains(read_write[i - a.len() - b.len()]));
    }
}

/// The host's file system is gone when the command starts: after the old root has been moved
/// it is detached and removed, and nothing else is done but to go to the working directory.
pub proof fn lemma_old_root_is_detached(
    read_only: Seq<Seq<char>>,
    read_write: Seq<Seq<char>>,
    base: Seq<char>,
    working_dir: Seq<char>,
    pid: u32,
)
    ensures
        ({
            let all = namespace_stages(read_only, read_write, base, working_dir, pid);
            let n = all.len() as int;
            &&& n >= 5
            &&& all[n - 5] == Stage::PivotRoot
            &&& all[n - 3] == Stage::Detach(joined_path("/"@, OLD_ROOT@))
            &&& all[n - 2] == Stage::RemoveDir(joined_path("/"@, OLD_ROOT@))
            &&& all[n - 1] == Stage::ChangeDir(working_dir)
        }),
{
}

/// Where a path of the host is bound: below the new root, without the slashes at its start.
pub proof fn lemma_where_a_path_is_bound(root: Seq<char>, slashes: nat, rest: Seq<char>)
    requires
        rest.len() == 0 || rest[0] != '/',
    ensures
        below_root(Seq::new(slashes, |i: int| '/') + rest) == rest,
        root.len() > 0 && root.last() != '/' ==> bind_place(
            root,
            Seq::new(slashes, |i: int| '/') + rest,
        ) == root + seq!['/'] + rest,
    decreases slashes,
{
    let head = Seq::new(slashes, |i: int| '/');
    if slashes == 0 {
        assert(head + rest =~= rest);
    } else {
        let n = (slashes - 1) as nat;
        lemma_where_a_path_is_bound(root, n, rest);
        assert((head + rest)[0] == '/');
        assert((head + rest).drop_first() =~= Seq::new(n, |i: int| '/') + rest);
    }
    lemma_joined_path(root, rest);
}

/// Every path that the command may touch is bound: first those that it may only read, all of
/// them, read-only, and then those that it may write to. The root is set up before, and the old
/// root goes after.
pub proof fn lemma_every_listed_path_is_bound(
    read_only: Seq<Seq<char>>,
    read_write: Seq<Seq<char>>,
    base: Seq<char>,
    working_dir: Seq<char>,
    pid: u32,
    i: int,
)
    ensures
        ({
            let root = joined_path(base, numeral(pid as nat));
            let all = namespace_stages(read_only, read_write, base, working_dir, pid);
            let n = read_only.len() as int;
            let m = read_write.len() as int;
            &&& all.len() == n + m + 17
            &&& all.take(6) == seq![
                Stage::EnterUserNamespace,
                Stage::Clear(root),
                Stage::MakeDir(root),
                Stage::UnshareMounts,
                Stage::MakePrivate,
                Stage::MountRoot(root),
            ]
            &&& 0 <= i < n ==> all[6 + i] == (Stage::Bind {
                source: read_only[i],
                destination: joined_path(root, below_root(read_only[i])),
                read_only: true,
            })
            &&& 0 <= i < m ==> all[6 + n + i] == (Stage::Bind {
                source: read_write[i],
                destination: joined_path(root, below_root(read_write[i])),
                read_only: false,
            })
            &&& all.subrange(6 + n + m, 10 + n + m) == seq![
                Stage::MirrorLink { host: "/bin"@, destination: joined_path(root, "bin"@) },
                Stage::MirrorLink { host: "/sbin"@, destination: joined_path(root, "sbin"@) },
                Stage::MirrorLink { host: "/lib"@, destination: joined_path(root, "lib"@) },
                Stage::MirrorLink { host: "/lib64"@, destination: joined_path(root, "lib64"@) },
            ]
            &&& all.skip(10 + n + m) == seq![
                Stage::MakeDir(joined_path(root, ".oldroot"@)),
                Stage::ChangeDir(root),
                Stage::PivotRoot,
                Stage::ChangeDir("/"@),
                Stage::Detach("/.oldroot"@),
                Stage::RemoveDir("/.oldroot"@),
                Stage::ChangeDir(working_dir),
            ]
        }),
{
    reveal_strlit("/");
    reveal_strlit("bin");
    reveal_strlit("/bin");
    reveal_strlit("sbin");
    reveal_strlit("/sbin");
    reveal_strlit("lib");
    reveal_strlit("/lib");
    reveal_strlit("lib64");
    reveal_strlit("/lib64");
    reveal_strlit(".oldroot");
    reveal_strlit("/.oldroot");
    lemma_joined_path("/"@, "bin"@);
    lemma_joined_path("/"@, "sbin"@);
    lemma_joined_path("/"@, "lib"@);
    lemma_joined_path("/"@, "lib64"@);
    lemma_joined_path("/"@, ".oldroot"@);
    assert("/"@ + "bin"@ =~= "/bin"@);
    assert("/"@ + "sbin"@ =~= "/sbin"@);
    assert("/"@ + "lib"@ =~= "/lib"@);
    assert("/"@ + "lib64"@ =~= "/lib64"@);
    assert("/"@ + ".oldroot"@ =~= "/.oldroot"@);
    let root = root_of(base, pid);
    let all = namespace_stages(read_only, read_write, base, working_dir, pid);
    let n = read_only.len() as int;
    let m = read_write.len() as int;
    assert(all.take(6) =~= stages_before(root));
    assert(all.subrange(6 + n + m, 10 + n + m) =~= mirrors(root));
    assert(all.skip(10 + n + m) =~= stages_after(root, working_dir));
    assert(mirrors(root) =~= seq![
        Stage::MirrorLink { host: "/bin"@, destination: joined_path(root, "bin"@) },
        Stage::MirrorLink { host: "/sbin"@, destination: joined_path(root, "sbin"@) },
        Stage::MirrorLink { host: "/lib"@, destination: joined_path(root, "lib"@) },
        Stage::MirrorLink { host: "/lib64"@, destination: joined_path(root, "lib64"@) },
    ]);
}

/// A relative path is found if there is one, and the first of them is: where none is found all
/// paths start at the root directory.
pub proof fn lemma_relative_paths(before: Seq<Seq<char>>, p: Seq<char>, after: Seq<Seq<char>>)
    requires
        forall|i: int| #![trigger before[i]]
            0 <= i < before.len() ==> before[i].len() > 0 && before[i][0] == '/',
    ensures
        first_relative(before, 0) is None,
        p.len() == 0 || p[0] != '/' ==> first_relative(before + seq![p] + after, 0) == Some(p),
{
    lemma_relative_from(before, p, after, 0);
}

proof fn lemma_relative_from(
    before: Seq<Seq<char>>,
    p: Seq<char>,
    after: Seq<Seq<char>>,
    from: int,
)
    requires
        0 <= from <= before.len(),
        forall|i: int| #![trigger before[i]]
            0 <= i < before.len() ==> before[i].len() > 0 && before[i][0] == '/',
    ensures
        first_relative(before, from) is None,
        p.len() == 0 || p[0] != '/' ==> first_relative(before + seq![p] + after, from) == Some(p),
    decreases before.len() - from,
{
    let all = before + seq![p] + after;
    if from < before.len() {
        lemma_relative_from(before, p, after, from + 1);
        assert(all[from] == before[from]);
    } else {
        assert(all[from] == p);
    }
}

/// What the steps stand for, one for one.
pub proof fn lemma_steps_and_stages(steps: Seq<NamespaceStep>, a: String, b: String, locked: bool, i: int)
    ensures
        stages(steps).len() == steps.len(),
        0 <= i < steps.len() ==> stages(steps)[i] == steps[i]@,
        NamespaceStep::EnterUserNamespace@ == Stage::EnterUserNamespace,
        NamespaceStep::Clear(a)@ == Stage::Clear(a@),
        NamespaceStep::MakeDir(a)@ == Stage::MakeDir(a@),
        NamespaceStep::UnshareMounts@ == Stage::UnshareMounts,
        NamespaceStep::MakePrivate@ == Stage::MakePrivate,
        NamespaceStep::MountRoot(a)@ == Stage::MountRoot(a@),
        (NamespaceStep::Bind { source: a, destination: b, read_only: locked })@ == (Stage::Bind {
            source: a@,
            destination: b@,
            read_only: locked,
        }),
        (NamespaceStep::MirrorLink { host: a, destination: b })@ == (Stage::MirrorLink {
            host: a@,
            destination: b@,
        }),
        NamespaceStep::ChangeDir(a)@ == Stage::ChangeDir(a@),
        NamespaceStep::PivotRoot@ == Stage::PivotRoot,
        NamespaceStep::Detach(a)@ == Stage::Detach(a@),
        NamespaceStep::RemoveDir(a)@ == Stage::RemoveDir(a@),
        ROOT_OPTIONS@ == "mode=0755,size=64m"@,
{
}

} // verus!
