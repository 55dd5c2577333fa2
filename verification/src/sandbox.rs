//! What a sandboxed agent may touch.
use crate::error::joined;
use crate::text;
use crate::text::{chars_equal, from_chars, to_chars};
use vstd::prelude::*;
use vstd::string::*;

verus! {

/// Why a sandbox could not be set up.
#[derive(Debug, PartialEq, Eq)]
pub enum SandboxError {
    /// There is no such path.
    PathNotFound(String),
    /// The real place of a path could not be found.
    Canonicalize(String),
    /// The platform knows no sandbox.
    NotSupported,
    /// The sandbox could not be applied.
    ApplyFailed(String),
}

impl SandboxError {
    /// The message that the error is shown with.
    pub open spec fn message(&self) -> Seq<char> {
        match *self {
            SandboxError::PathNotFound(p) => "path not found: "@ + p@,
            SandboxError::Canonicalize(e) => "path canonicalization failed: "@ + e@,
            SandboxError::NotSupported => "sandbox not supported on this platform"@,
            SandboxError::ApplyFailed(e) => "sandbox apply failed: "@ + e@,
        }
    }

    /// The error as text.
    pub fn to_string(&self) -> (s: String)
        ensures
            s@ == self.message(),
    {
        match self {
            SandboxError::PathNotFound(p) => joined("path not found: ", p.as_str()),
            SandboxError::Canonicalize(e) => joined("path canonicalization failed: ", e.as_str()),
            SandboxError::NotSupported => "sandbox not supported on this platform".to_string(),
            SandboxError::ApplyFailed(e) => joined("sandbox apply failed: ", e.as_str()),
        }
    }
}

/// File access mode.
#[derive(Debug, Clone, Copy, PartialEq, Eq, Structural)]
pub enum AccessMode {
    Read,
    Write,
    ReadWrite,
}

impl AccessMode {
    /// Whether the mode allows to read.
    pub open spec fn reads(self) -> bool {
        self != AccessMode::Write
    }

    /// Whether the mode allows to write.
    pub open spec fn writes(self) -> bool {
        self != AccessMode::Read
    }

    /// Whether the mode allows all that another one asks for.
    pub fn contains(self, required: AccessMode) -> (b: bool)
        ensures
            b == ((required.reads() ==> self.reads()) && (required.writes() ==> self.writes())),
    {
        match (self, required) {
            (AccessMode::ReadWrite, _) => true,
            (AccessMode::Read, AccessMode::Read) => true,
            (AccessMode::Write, AccessMode::Write) => true,
            _ => false,
        }
    }
}

/// Access to a file, or to a directory and what is in it.
#[derive(Debug)]
pub struct FsCapability {
    /// The path as it was given.
    pub original: String,
    /// The absolute path without links.
    pub resolved: String,
    /// The access that is granted.
    pub access: AccessMode,
    /// Whether it is a single file.
    pub is_file: bool,
}

/// Access to a path, as a mathematical value.
pub struct CapabilityView {
    pub original: Seq<char>,
    pub resolved: Seq<char>,
    pub access: AccessMode,
    pub is_file: bool,
}

impl View for FsCapability {
    type V = CapabilityView;

    open spec fn view(&self) -> CapabilityView {
        CapabilityView {
            original: self.original@,
            resolved: self.resolved@,
            access: self.access,
            is_file: self.is_file,
        }
    }
}

impl Clone for FsCapability {
    fn clone(&self) -> (c: Self)
        ensures
            c@ == self@,
    {
        FsCapability {
            original: self.original.clone(),
            resolved: self.resolved.clone(),
            access: self.access,
            is_file: self.is_file,
        }
    }
}

/// Where a path really leads, as the file system says.
#[derive(Debug)]
pub struct ResolvedPath {
    pub path: String,
    pub is_file: bool,
}

/// The first position of a slash, and the length where there is none.
pub open spec fn part_end(s: Seq<char>) -> int {
    match text::first_index(s, |c: char| c == '/') {
        Some(i) => i,
        None => s.len() as int,
    }
}

/// The parts of a path that are separated by slashes. Empty parts do not count, nor do single dots
/// unless the path begins with one.
pub open spec fn path_parts(s: Seq<char>, first: bool) -> Seq<Seq<char>>
    decreases s.len(),
    via path_parts_decreases
{
    if s.len() == 0 {
        Seq::empty()
    } else if s[0] == '/' {
        path_parts(s.skip(1), false)
    } else {
        let part = s.take(part_end(s));
        let rest = path_parts(s.skip(part_end(s)), false);
        if part == "."@ && !first {
            rest
        } else {
            seq![part] + rest
        }
    }
}

#[via_fn]
proof fn path_parts_decreases(s: Seq<char>, first: bool) {
    text::lemma_first_index(s, |c: char| c == '/');
}

/// The components of a path: the root, where the path begins with it, and the parts.
pub open spec fn components(s: Seq<char>) -> Seq<Seq<char>> {
    if s.len() > 0 && s[0] == '/' {
        seq![seq!['/']] + path_parts(s, false)
    } else {
        path_parts(s, true)
    }
}

/// Whether a path is another one or lies in it: whole components are compared.
pub open spec fn lies_in(path: Seq<char>, base: Seq<char>) -> bool {
    text::has_prefix(components(path), components(base))
}

fn parts(s: &[char], first: bool) -> (v: Vec<Vec<char>>)
    ensures
        text::char_views(v@) == path_parts(s@, first),
{
    let mut v: Vec<Vec<char>> = Vec::new();
    let mut rest = s;
    let mut at_start: bool = first;
    assert(text::char_views(v@) + path_parts(rest@, at_start) =~= path_parts(s@, first));
    while rest.len() > 0
        invariant
            text::char_views(v@) + path_parts(rest@, at_start) == path_parts(s@, first),
        decreases rest.len(),
    {
        let ghost before = text::char_views(v@);
        if rest[0] == '/' {
            let next = vstd::slice::slice_subrange(rest, 1, rest.len());
            assert(next@ =~= rest@.skip(1));
            rest = next;
        } else {
            let mut n: usize = 0;
            while n < rest.len() && rest[n] != '/'
                invariant
                    n <= rest.len(),
                    rest@[0] != '/',
                    forall|k: int| 0 <= k < n ==> rest@[k] != '/',
                decreases rest.len() - n,
            {
                n += 1;
            }
            proof {
                if n < rest.len() {
                    text::lemma_first_index_at(rest@, |c: char| c == '/', n as int);
                } else {
                    text::lemma_first_index_none(rest@, |c: char| c == '/');
                }
                assert(n > 0);
            }
            let part = vstd::slice::slice_subrange(rest, 0, n);
            assert(part@ =~= rest@.take(n as int));
            let next = vstd::slice::slice_subrange(rest, n, rest.len());
            assert(next@ =~= rest@.skip(n as int));
            if !chars_equal(part, ".") || at_start {
                let copy = vstd::slice::slice_to_vec(part);
                v.push(copy);
                assert(text::char_views(v@) =~= before.push(part@));
                assert(before + (seq![part@] + path_parts(next@, false)) =~= text::char_views(v@)
                    + path_parts(next@, false));
            }
            rest = next;
        }
        at_start = false;
    }
    assert(text::char_views(v@) + path_parts(rest@, at_start) =~= text::char_views(v@));
    v
}

fn all_components(s: &[char]) -> (v: Vec<Vec<char>>)
    ensures
        text::char_views(v@) == components(s@),
{
    if s.len() > 0 && s[0] == '/' {
        let mut v = parts(s, false);
        let ghost rest = text::char_views(v@);
        let mut root: Vec<char> = Vec::new();
        root.push('/');
        assert(root@ =~= seq!['/']);
        v.insert(0, root);
        assert(text::char_views(v@) =~= seq![seq!['/']] + rest);
        v
    } else {
        parts(s, true)
    }
}

/// Whether a path is another one or lies in it.
pub fn path_starts_with(path: &str, base: &str) -> (b: bool)
    ensures
        b == lies_in(path@, base@),
{
    let p = to_chars(path);
    let q = to_chars(base);
    let a = all_components(&p);
    let b = all_components(&q);
    let ghost x = text::char_views(a@);
    let ghost y = text::char_views(b@);
    assert(x.len() == a.len() && y.len() == b.len());
    if b.len() > a.len() {
        return false;
    }
    let mut i: usize = 0;
    while i < b.len()
        invariant
            i <= b.len() <= a.len(),
            x == text::char_views(a@),
            y == text::char_views(b@),
            x == components(path@),
            y == components(base@),
            forall|k: int| 0 <= k < i ==> x[k] == y[k],
        decreases b.len() - i,
    {
        assert(x[i as int] == a@[i as int]@ && y[i as int] == b@[i as int]@);
        let part = from_chars(&b[i]);
        if !chars_equal(&a[i], part.as_str()) {
            assert(x.take(y.len() as int)[i as int] != y[i as int]);
            return false;
        }
        i += 1;
    }
    assert(x.take(y.len() as int) =~= y);
    true
}

/// What is allowed: access to paths, and perhaps the network.
#[derive(Debug)]
pub struct CapabilitySet {
    pub fs_capabilities: Vec<FsCapability>,
    pub network_blocked: bool,
}

/// What is allowed, as a mathematical value.
pub struct CapabilitySetView {
    pub fs: Seq<CapabilityView>,
    pub network_blocked: bool,
}

/// The views of a list of capabilities.
pub open spec fn capability_views(v: Seq<FsCapability>) -> Seq<CapabilityView> {
    v.map_values(|c: FsCapability| c@)
}

impl View for CapabilitySet {
    type V = CapabilitySetView;

    open spec fn view(&self) -> CapabilitySetView {
        CapabilitySetView {
            fs: capability_views(self.fs_capabilities@),
            network_blocked: self.network_blocked,
        }
    }
}

/// Nothing allowed but the network.
pub open spec fn no_capabilities() -> CapabilitySetView {
    CapabilitySetView { fs: Seq::empty(), network_blocked: false }
}

impl CapabilitySetView {
    /// Access to one more path.
    pub open spec fn with(self, c: CapabilityView) -> CapabilitySetView {
        CapabilitySetView { fs: self.fs.push(c), ..self }
    }

    /// Access to a path that is taken as it is given.
    pub open spec fn with_unchecked(self, path: Seq<char>, access: AccessMode) -> CapabilitySetView {
        self.with(CapabilityView { original: path, resolved: path, access, is_file: false })
    }

    /// Whether some granted path covers a path.
    pub open spec fn covers(self, path: Seq<char>) -> bool {
        exists|i: int| 0 <= i < self.fs.len() && lies_in(path, (#[trigger] self.fs[i]).resolved)
    }

    /// Whether some granted path covers a path with an access.
    pub open spec fn covers_with(self, path: Seq<char>, required: AccessMode) -> bool {
        exists|i: int|
            0 <= i < self.fs.len() && lies_in(path, (#[trigger] self.fs[i]).resolved) && (
            required.reads() ==> self.fs[i].access.reads()) && (required.writes()
                ==> self.fs[i].access.writes())
    }
}

impl Default for CapabilitySet {
    fn default() -> (s: Self)
        ensures
            s@ == no_capabilities(),
    {
        let s = CapabilitySet { fs_capabilities: Vec::new(), network_blocked: false };
        assert(s@.fs =~= Seq::empty());
        s
    }
}

impl Clone for CapabilitySet {
    fn clone(&self) -> (s: Self)
        ensures
            s@ == self@,
    {
        let mut fs: Vec<FsCapability> = Vec::new();
        let mut i: usize = 0;
        while i < self.fs_capabilities.len()
            invariant
                i <= self.fs_capabilities.len(),
                fs.len() == i,
                forall|k: int| 0 <= k < i ==> (#[trigger] fs@[k])@ == self.fs_capabilities@[k]@,
            decreases self.fs_capabilities.len() - i,
        {
            fs.push(self.fs_capabilities[i].clone());
            i += 1;
        }
        assert(capability_views(fs@) =~= capability_views(self.fs_capabilities@));
        CapabilitySet { fs_capabilities: fs, network_blocked: self.network_blocked }
    }
}

impl CapabilitySet {
    /// No access to any path.
    pub fn new() -> (s: Self)
        ensures
            s@ == no_capabilities(),
    {
        CapabilitySet::default()
    }

    /// Grants access to a path. `resolved` says where it leads; a path that leads nowhere is
    /// refused.
    pub fn allow_path(self, path: &str, resolved: Option<ResolvedPath>, access: AccessMode) -> (result: Result<
        CapabilitySet,
        SandboxError,
    >)
        ensures
            match result {
                Ok(s) => resolved matches Some(r) && s@ == self@.with(
                    CapabilityView {
                        original: path@,
                        resolved: r.path@,
                        access,
                        is_file: r.is_file,
                    },
                ),
                Err(SandboxError::PathNotFound(p)) => resolved is None && p@ == path@,
                Err(_) => false,
            },
    {
        match resolved {
            Some(r) => {
                let mut s = self;
                let ghost before = s@.fs;
                let c = FsCapability {
                    original: path.to_string(),
                    resolved: r.path,
                    access,
                    is_file: r.is_file,
                };
                s.fs_capabilities.push(c);
                assert(s@.fs =~= before.push(c@));
                Ok(s)
            },
            None => Err(SandboxError::PathNotFound(path.to_string())),
        }
    }

    /// Grants access to a path that may not exist yet.
    pub fn allow_path_unchecked(self, path: &str, access: AccessMode) -> (s: CapabilitySet)
        ensures
            s@ == self@.with_unchecked(path@, access),
    {
        let mut s = self;
        let ghost before = s@.fs;
        let c = FsCapability {
            original: path.to_string(),
            resolved: path.to_string(),
            access,
            is_file: false,
        };
        s.fs_capabilities.push(c);
        assert(s@.fs =~= before.push(c@));
        s
    }

    /// Blocks the network.
    pub fn block_network(self) -> (s: CapabilitySet)
        ensures
            s@ == (CapabilitySetView { network_blocked: true, ..self@ }),
    {
        let mut s = self;
        s.network_blocked = true;
        s
    }

    /// Whether a path, given without links where that is known, is covered.
    pub fn path_covered(&self, canonical: &str) -> (b: bool)
        ensures
            b == self@.covers(canonical@),
    {
        let mut i: usize = 0;
        while i < self.fs_capabilities.len()
            invariant
                i <= self.fs_capabilities.len(),
                forall|k: int|
                    0 <= k < i ==> !lies_in(canonical@, (#[trigger] self@.fs[k]).resolved),
            decreases self.fs_capabilities.len() - i,
        {
            assert(self@.fs[i as int] == self.fs_capabilities@[i as int]@);
            if path_starts_with(canonical, self.fs_capabilities[i].resolved.as_str()) {
                return true;
            }
            i += 1;
        }
        false
    }

    /// Whether a path, given without links where that is known, is covered with an access.
    pub fn path_covered_with_access(&self, canonical: &str, required: AccessMode) -> (b: bool)
        ensures
            b == self@.covers_with(canonical@, required),
    {
        let mut i: usize = 0;
        while i < self.fs_capabilities.len()
            invariant
                i <= self.fs_capabilities.len(),
                forall|k: int|
                    0 <= k < i ==> !(lies_in(canonical@, (#[trigger] self@.fs[k]).resolved) && (
                    required.reads() ==> self@.fs[k].access.reads()) && (required.writes()
                        ==> self@.fs[k].access.writes())),
            decreases self.fs_capabilities.len() - i,
        {
            assert(self@.fs[i as int] == self.fs_capabilities@[i as int]@);
            if path_starts_with(canonical, self.fs_capabilities[i].resolved.as_str())
                && self.fs_capabilities[i].access.contains(required) {
                return true;
            }
            i += 1;
        }
        false
    }
}

/// Predefined sets of capabilities.
#[derive(Debug)]
pub enum SandboxProfile {
    /// The agent may read the worktree.
    ReadOnlyWorktree { worktree_path: String },
    /// The agent may read and write the worktree.
    ReadWriteWorktree { worktree_path: String },
    /// The agent has a worktree of its own.
    OwnWorktree { worktree_path: String },
    /// Something else.
    Custom(CapabilitySet),
}

/// Read access to the directories that programs need.
pub open spec fn with_system_paths(s: CapabilitySetView) -> CapabilitySetView {
    s.with_unchecked("/usr"@, AccessMode::Read).with_unchecked(
        "/lib"@,
        AccessMode::Read,
    ).with_unchecked("/bin"@, AccessMode::Read).with_unchecked("/sbin"@, AccessMode::Read)
}

/// What a worktree profile allows.
pub open spec fn worktree_capabilities(
    path: Seq<char>,
    resolved: ResolvedPath,
    access: AccessMode,
    network_blocked: bool,
) -> CapabilitySetView {
    CapabilitySetView {
        network_blocked,
        ..with_system_paths(
            no_capabilities().with(
                CapabilityView {
                    original: path,
                    resolved: resolved.path@,
                    access,
                    is_file: resolved.is_file,
                },
            ),
        )
    }
}

fn worktree_set(path: &str, resolved: Option<ResolvedPath>, access: AccessMode) -> (result: Result<
    CapabilitySet,
    SandboxError,
>)
    ensures
        match result {
            Ok(s) => resolved matches Some(r) && s@ == worktree_capabilities(
                path@,
                r,
                access,
                false,
            ),
            Err(SandboxError::PathNotFound(p)) => resolved is None && p@ == path@,
            Err(_) => false,
        },
{
    match CapabilitySet::new().allow_path(path, resolved, access) {
        Ok(s) => Ok(
            s.allow_path_unchecked("/usr", AccessMode::Read).allow_path_unchecked(
                "/lib",
                AccessMode::Read,
            ).allow_path_unchecked("/bin", AccessMode::Read).allow_path_unchecked(
                "/sbin",
                AccessMode::Read,
            ),
        ),
        Err(e) => Err(e),
    }
}

impl SandboxProfile {
    /// The path of the worktree, where the profile has one.
    pub open spec fn spec_worktree(&self) -> Option<Seq<char>> {
        match *self {
            SandboxProfile::ReadOnlyWorktree { worktree_path } => Some(worktree_path@),
            SandboxProfile::ReadWriteWorktree { worktree_path } => Some(worktree_path@),
            SandboxProfile::OwnWorktree { worktree_path } => Some(worktree_path@),
            SandboxProfile::Custom(_) => None,
        }
    }

    /// The path of the worktree, where the profile has one.
    pub fn worktree(&self) -> (path: Option<&String>)
        ensures
            match path {
                Some(p) => self.spec_worktree() == Some(p@),
                None => self.spec_worktree() is None,
            },
    {
        match self {
            SandboxProfile::ReadOnlyWorktree { worktree_path } => Some(worktree_path),
            SandboxProfile::ReadWriteWorktree { worktree_path } => Some(worktree_path),
            SandboxProfile::OwnWorktree { worktree_path } => Some(worktree_path),
            SandboxProfile::Custom(_) => None,
        }
    }

    /// The capabilities of the profile. `resolved` says where the worktree leads; one that leads
    /// nowhere is refused.
    pub fn to_capability_set(&self, resolved: Option<ResolvedPath>) -> (result: Result<
        CapabilitySet,
        SandboxError,
    >)
        ensures
            match *self {
                SandboxProfile::Custom(caps) => result matches Ok(s) && s@ == caps@,
                SandboxProfile::ReadOnlyWorktree { worktree_path } => match result {
                    Ok(s) => resolved matches Some(r) && s@ == worktree_capabilities(
                        worktree_path@,
                        r,
                        AccessMode::Read,
                        true,
                    ),
                    Err(SandboxError::PathNotFound(p)) => resolved is None && p@ == worktree_path@,
                    Err(_) => false,
                },
                SandboxProfile::ReadWriteWorktree { worktree_path } => match result {
                    Ok(s) => resolved matches Some(r) && s@ == worktree_capabilities(
                        worktree_path@,
                        r,
                        AccessMode::ReadWrite,
                        false,
                    ),
                    Err(SandboxError::PathNotFound(p)) => resolved is None && p@ == worktree_path@,
                    Err(_) => false,
                },
                SandboxProfile::OwnWorktree { worktree_path } => match result {
                    Ok(s) => resolved matches Some(r) && s@ == worktree_capabilities(
                        worktree_path@,
                        r,
                        AccessMode::ReadWrite,
                        false,
                    ),
                    Err(SandboxError::PathNotFound(p)) => resolved is None && p@ == worktree_path@,
                    Err(_) => false,
                },
            },
    {
        match self {
            SandboxProfile::ReadOnlyWorktree { worktree_path } => {
                match worktree_set(worktree_path.as_str(), resolved, AccessMode::Read) {
                    Ok(s) => Ok(s.block_network()),
                    Err(e) => Err(e),
                }
            },
            SandboxProfile::ReadWriteWorktree { worktree_path } => worktree_set(
                worktree_path.as_str(),
                resolved,
                AccessMode::ReadWrite,
            ),
            SandboxProfile::OwnWorktree { worktree_path } => worktree_set(
                worktree_path.as_str(),
                resolved,
                AccessMode::ReadWrite,
            ),
            SandboxProfile::Custom(caps) => Ok(caps.clone()),
        }
    }
}

/// Whether a platform, given by name, has a sandbox.
pub fn is_supported(os: &str) -> (b: bool)
    ensures
        b == (os@ == "linux"@ || os@ == "macos"@),
{
    let chars = to_chars(os);
    chars_equal(&chars, "linux") || chars_equal(&chars, "macos")
}

/// Applies a sandbox. There is none to apply yet, so this always succeeds.
pub fn apply(caps: &CapabilitySet) -> (result: Result<(), SandboxError>)
    ensures
        result is Ok,
{
    let _ = caps;
    Ok(())
}

/// A granted path covers itself.
pub proof fn law_a_path_lies_in_itself(path: Seq<char>)
    ensures
        lies_in(path, path),
{
    assert(components(path).take(components(path).len() as int) =~= components(path));
}

/// What lies in a path lies in all that the path lies in.
pub proof fn law_lying_in_is_transitive(a: Seq<char>, b: Seq<char>, c: Seq<char>)
    requires
        lies_in(a, b),
        lies_in(b, c),
    ensures
        lies_in(a, c),
{
    let x = components(a);
    let y = components(b);
    let z = components(c);
    assert(x.take(z.len() as int) =~= x.take(y.len() as int).take(z.len() as int));
}

proof fn lemma_parts_pieces(a: Seq<char>, b: Seq<char>, first: bool)
    ensures
        path_parts(a + seq!['/'] + b, first) == path_parts(a, first) + path_parts(b, false)
            || a.len() == 0,
        path_parts(seq!['/'] + b, first) == path_parts(b, false),
    decreases a.len(),
{
    let slash = seq!['/'] + b;
    assert(slash.skip(1) =~= b);
    assert(slash[0] == '/');
    if a.len() > 0 {
        let s = a + seq!['/'] + b;
        assert(s[0] == a[0]);
        if a[0] == '/' {
            let t = a.skip(1);
            assert(s.skip(1) =~= t + seq!['/'] + b);
            lemma_parts_pieces(t, b, false);
            if t.len() == 0 {
                assert(t + seq!['/'] + b =~= slash);
                assert(path_parts(t, false) =~= Seq::empty());
                assert(path_parts(s, first) =~= path_parts(a, first) + path_parts(b, false));
            }
        } else {
            let p = |c: char| c == '/';
            text::lemma_first_index(a, p);
            let e = part_end(a);
            assert forall|k: int| 0 <= k < e implies !p(#[trigger] s[k]) by {
                assert(s[k] == a[k]);
            }
            assert(s[e] == '/');
            text::lemma_first_index_at(s, p, e);
            assert(e > 0);
            let part = a.take(e);
            assert(s.take(e) =~= part);
            let t = a.skip(e);
            assert(s.skip(e) =~= t + seq!['/'] + b);
            lemma_parts_pieces(t, b, false);
            if t.len() == 0 {
                assert(t + seq!['/'] + b =~= slash);
                assert(path_parts(t, false) =~= Seq::empty());
            }
            assert(path_parts(s, first) =~= path_parts(a, first) + path_parts(b, false));
        }
    }
}

/// What stands in a directory lies in it.
pub proof fn law_paths_lie_in_their_directories(base: Seq<char>, rest: Seq<char>)
    requires
        base.len() > 0,
    ensures
        lies_in(base + seq!['/'] + rest, base),
{
    let s = base + seq!['/'] + rest;
    assert(s[0] == base[0]);
    lemma_parts_pieces(base, rest, true);
    lemma_parts_pieces(base, rest, false);
    let c = components(base);
    assert(components(s) =~= c + path_parts(rest, false));
    assert(components(s).take(c.len() as int) =~= c);
}

proof fn lemma_longer_name(a: Seq<char>, x: Seq<char>, first: bool)
    requires
        a.len() > 0,
        a.last() != '/',
        a.last() != '.',
        x.len() > 0,
        forall|i: int| 0 <= i < x.len() ==> #[trigger] x[i] != '/',
    ensures
        path_parts(a, first).len() > 0,
        path_parts(a + x, first) == path_parts(a, first).drop_last().push(
            path_parts(a, first).last() + x,
        ),
    decreases a.len(),
{
    let s = a + x;
    assert(s[0] == a[0]);
    if a[0] == '/' {
        let t = a.skip(1);
        assert(t.len() > 0);
        assert(t.last() == a.last());
        assert(s.skip(1) =~= t + x);
        lemma_longer_name(t, x, false);
    } else {
        let p = |c: char| c == '/';
        text::lemma_first_index(a, p);
        let e = part_end(a);
        assert forall|k: int| 0 <= k < e implies !p(#[trigger] s[k]) by {
            assert(s[k] == a[k]);
        }
        if e == a.len() {
            assert forall|k: int| 0 <= k < s.len() implies !p(#[trigger] s[k]) by {
                if k >= a.len() {
                    assert(s[k] == x[k - a.len()]);
                }
            }
            text::lemma_first_index_none(s, p);
            reveal_strlit(".");
            assert(a.take(e) =~= a);
            assert(s.take(s.len() as int) =~= s);
            assert(a.skip(e) =~= Seq::empty());
            assert(s.skip(s.len() as int) =~= Seq::empty());
            assert(a != "."@) by {
                assert(a.last() != "."@.last());
            }
            assert(s.len() >= 2);
            assert(path_parts(Seq::empty(), false) =~= Seq::<Seq<char>>::empty());
            assert(path_parts(a, first) =~= seq![a]);
            assert(path_parts(s, first) =~= seq![s]);
            assert(seq![a].drop_last().push(a + x) =~= seq![s]);
        } else {
            assert(s[e] == '/');
            text::lemma_first_index_at(s, p, e);
            let t = a.skip(e);
            assert(t.last() == a.last());
            assert(s.take(e) =~= a.take(e));
            assert(s.skip(e) =~= t + x);
            lemma_longer_name(t, x, false);
            let rest = path_parts(t, false);
            let part = seq![a.take(e)];
            assert((part + rest).drop_last() =~= part + rest.drop_last());
            assert(part + rest.drop_last().push(rest.last() + x) =~= (part
                + rest.drop_last()).push(rest.last() + x));
            assert(path_parts(s, first) =~= path_parts(a, first).drop_last().push(
                path_parts(a, first).last() + x,
            ));
        }
    }
}

/// A path whose last name only begins like that of another one does not lie in it.
pub proof fn law_longer_names_lie_elsewhere(base: Seq<char>, x: Seq<char>)
    requires
        base.len() > 0,
        base.last() != '/',
        base.last() != '.',
        x.len() > 0,
        forall|i: int| 0 <= i < x.len() ==> #[trigger] x[i] != '/',
    ensures
        !lies_in(base + x, base),
{
    let s = base + x;
    assert(s[0] == base[0]);
    lemma_longer_name(base, x, true);
    lemma_longer_name(base, x, false);
    let c = components(base);
    let d = components(s);
    assert(c.len() == d.len());
    assert(d.last() == c.last() + x);
    assert(d.last().len() > c.last().len());
    if lies_in(s, base) {
        assert(d.take(c.len() as int)[c.len() - 1] == c[c.len() - 1]);
    }
}

/// What a path may be used for: nothing that was granted for reading alone may be written.
pub proof fn law_grants_are_not_exceeded(s: CapabilitySetView, path: Seq<char>)
    ensures
        s.covers_with(path, AccessMode::Write) ==> exists|i: int|
            0 <= i < s.fs.len() && lies_in(path, (#[trigger] s.fs[i]).resolved) && s.fs[i].access
                != AccessMode::Read,
        s.covers_with(path, AccessMode::Read) ==> exists|i: int|
            0 <= i < s.fs.len() && lies_in(path, (#[trigger] s.fs[i]).resolved) && s.fs[i].access
                != AccessMode::Write,
        s.covers_with(path, AccessMode::ReadWrite) <==> exists|i: int|
            0 <= i < s.fs.len() && lies_in(path, (#[trigger] s.fs[i]).resolved) && s.fs[i].access
                == AccessMode::ReadWrite,
        s.covers(path) <==> exists|i: int|
            0 <= i < s.fs.len() && lies_in(path, (#[trigger] s.fs[i]).resolved),
{
}

/// With a worktree that may only be read nothing may be written anywhere, and with one that may be
/// written exactly what lies in it may be.
pub proof fn law_worktrees_bound_what_is_written(
    path: Seq<char>,
    resolved: ResolvedPath,
    blocked: bool,
    p: Seq<char>,
)
    ensures
        !worktree_capabilities(path, resolved, AccessMode::Read, blocked).covers_with(
            p,
            AccessMode::Write,
        ),
        worktree_capabilities(path, resolved, AccessMode::Read, blocked).network_blocked == blocked,
        lies_in(p, resolved.path@) ==> worktree_capabilities(
            path,
            resolved,
            AccessMode::Read,
            blocked,
        ).covers_with(p, AccessMode::Read),
        worktree_capabilities(path, resolved, AccessMode::ReadWrite, blocked).covers_with(
            p,
            AccessMode::Write,
        ) <==> lies_in(p, resolved.path@),
{
    let r = worktree_capabilities(path, resolved, AccessMode::Read, blocked);
    let w = worktree_capabilities(path, resolved, AccessMode::ReadWrite, blocked);
    assert(r.fs.len() == 5 && w.fs.len() == 5);
    assert(r.fs[0].resolved == resolved.path@ && r.fs[0].access == AccessMode::Read);
    assert(w.fs[0].resolved == resolved.path@ && w.fs[0].access == AccessMode::ReadWrite);
    assert forall|i: int| 0 < i < 5 implies (#[trigger] r.fs[i]).access == AccessMode::Read by {}
    assert forall|i: int| 0 < i < 5 implies (#[trigger] w.fs[i]).access == AccessMode::Read by {}
}

} // verus!
