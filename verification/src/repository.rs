//! Repository summaries, and the scan of approved roots for repositories.
use crate::api::{RepositoryLocalStatus, RepositoryScanEvent, RepositorySummary};
use crate::binding::{binding_drifted, drift_result, remote_view, ErrorView, LocalState};
use crate::config::{clone_opt, opt_view, Config, LocalFacts};
use crate::error::GitPersonaError;
use crate::profiles::{seq_lt, str_lt};
use crate::remote::{RemoteInfo, RemoteInfoView};
use crate::text::{cat3, eq_ignore_ascii_case, eq_ignore_case, lower_seq, str_eq, to_ascii_lowercase};
use vstd::prelude::*;

verus! {

/// How deep a walk descends below a root.
pub const MAX_SCAN_DEPTH: usize = 24;

/// How many directories a walk visits below one root before it stops.
pub const MAX_SCANNED_DIRECTORIES: usize = 20000;

/// Directories a scan never descends into: Git's own, dependency and build
/// trees, and caches.
pub const SKIPPED_DIRECTORIES: [&'static str; 7] = [
    ".git",
    "node_modules",
    "target",
    "dist",
    "build",
    "vendor",
    ".cache",
];

/// A directory name a scan skips, compared ignoring ASCII case.
pub open spec fn skipped_name(name: Seq<char>) -> bool {
    ||| eq_ignore_case(name, ".git"@)
    ||| eq_ignore_case(name, "node_modules"@)
    ||| eq_ignore_case(name, "target"@)
    ||| eq_ignore_case(name, "dist"@)
    ||| eq_ignore_case(name, "build"@)
    ||| eq_ignore_case(name, "vendor"@)
    ||| eq_ignore_case(name, ".cache"@)
}

/// Whether a scan skips a directory of this name.
pub fn is_skipped(name: &str) -> (r: bool)
    ensures
        r == skipped_name(name@),
{
    eq_ignore_ascii_case(name, ".git") || eq_ignore_ascii_case(name, "node_modules")
        || eq_ignore_ascii_case(name, "target") || eq_ignore_ascii_case(name, "dist")
        || eq_ignore_ascii_case(name, "build") || eq_ignore_ascii_case(name, "vendor")
        || eq_ignore_ascii_case(name, ".cache")
}

/// The key that identifies a path: the path itself, lower-cased on Windows.
pub open spec fn key_of(path: Seq<char>, windows: bool) -> Seq<char> {
    if windows {
        lower_seq(path)
    } else {
        path
    }
}

/// The key of a path.
pub fn path_key(path: &str, windows: bool) -> (r: String)
    ensures
        r@ == key_of(path@, windows),
{
    if windows {
        to_ascii_lowercase(path)
    } else {
        path.to_string()
    }
}

pub ghost struct SummaryView {
    pub path: Seq<char>,
    pub name: Seq<char>,
    pub bound_profile: Option<Seq<char>>,
    pub git_name: Option<Seq<char>>,
    pub git_email: Option<Seq<char>>,
    pub remote: Option<RemoteInfoView>,
    pub status: RepositoryLocalStatus,
    pub detail: Option<Seq<char>>,
}

impl View for RepositorySummary {
    type V = SummaryView;

    open spec fn view(&self) -> SummaryView {
        SummaryView {
            path: self.path@,
            name: self.name@,
            bound_profile: opt_view(self.bound_profile),
            git_name: opt_view(self.git_name),
            git_email: opt_view(self.git_email),
            remote: match self.remote {
                Some(r) => Some(r@),
                None => None,
            },
            status: self.status,
            detail: opt_view(self.detail),
        }
    }
}

impl Clone for RepositorySummary {
    fn clone(&self) -> (r: Self)
        ensures
            r@ == self@,
    {
        RepositorySummary {
            path: self.path.clone(),
            name: self.name.clone(),
            bound_profile: clone_opt(&self.bound_profile),
            git_name: clone_opt(&self.git_name),
            git_email: clone_opt(&self.git_email),
            remote: match &self.remote {
                Some(r) => Some(r.clone()),
                None => None,
            },
            status: self.status,
            detail: clone_opt(&self.detail),
        }
    }
}

/// How a repository stands with its binding: unbound, bound to a missing
/// profile, drifted, bound, or unknown because the drift check failed.
pub open spec fn local_status_of(
    bound: Option<Seq<char>>,
    config: Config,
    s: Seq<Option<Seq<char>>>,
    remote: Option<RemoteInfoView>,
    facts: LocalFacts,
) -> (RepositoryLocalStatus, Option<Seq<char>>) {
    match bound {
        None => (RepositoryLocalStatus::Unbound, None),
        Some(name) => if !config.profiles@.contains_key(name) {
            (RepositoryLocalStatus::MissingProfile, Some("bound profile '"@ + name + "' does not exist"@))
        } else {
            match drift_result(s, config.profiles@[name], remote, facts) {
                Ok(true) => (
                    RepositoryLocalStatus::Drifted,
                    Some("managed Git settings differ from the profile"@),
                ),
                Ok(false) => (RepositoryLocalStatus::Bound, None),
                Err(e) => (RepositoryLocalStatus::Unavailable, Some(e.1)),
            }
        },
    }
}

/// The final component of a path, as `Path::file_name` gives it.
pub uninterp spec fn file_name_result(path: Seq<char>) -> Option<Seq<char>>;

/// `std::path::Path::file_name`: the final component, unless the path ends
/// in `..` or is a root. Its result is a function of the path alone, and is
/// named, not stated.
#[verifier::external_body]
fn file_name(path: &str) -> (r: Option<String>)
    ensures
        opt_view(r) == file_name_result(path@),
{
    match std::path::Path::new(path).file_name() {
        Some(name) => Some(name.to_string_lossy().into_owned()),
        None => None,
    }
}

/// Summarises a repository from what was read of it: its worktree root,
/// its local binding settings, its `origin` remote and its (effective)
/// author name and email.
pub fn summarize(
    root: String,
    state: &LocalState,
    remote: Option<RemoteInfo>,
    git_name: Option<String>,
    git_email: Option<String>,
    config: &Config,
    facts: &LocalFacts,
) -> (r: RepositorySummary)
    requires
        state.wf(),
    ensures
        r.path@ == root@,
        r.name@ == (match file_name_result(root@) {
            Some(n) => n,
            None => root@,
        }),
        opt_view(r.bound_profile) == state@[0],
        opt_view(r.git_name) == opt_view(git_name),
        opt_view(r.git_email) == opt_view(git_email),
        r@.remote == (match remote {
            Some(x) => Some(x@),
            None => None::<RemoteInfoView>,
        }),
        (r.status, opt_view(r.detail)) == local_status_of(
            state@[0],
            *config,
            state@,
            match remote {
                Some(x) => Some(x@),
                None => None,
            },
            *facts,
        ),
{
    let bound = clone_opt(&state.values[0]);
    let (status, detail) = match &bound {
        None => (RepositoryLocalStatus::Unbound, None),
        Some(name) => match config.profiles.get(name.as_str()) {
            None => (
                RepositoryLocalStatus::MissingProfile,
                Some(cat3("bound profile '", name.as_str(), "' does not exist")),
            ),
            Some(profile) => match binding_drifted(state, profile, remote.as_ref(), facts) {
                Ok(true) => (
                    RepositoryLocalStatus::Drifted,
                    Some("managed Git settings differ from the profile".to_string()),
                ),
                Ok(false) => (RepositoryLocalStatus::Bound, None),
                Err(e) => (RepositoryLocalStatus::Unavailable, Some(e.message().to_string())),
            },
        },
    };
    let name = match file_name(root.as_str()) {
        Some(n) => n,
        None => root.clone(),
    };
    RepositorySummary {
        path: root,
        name,
        bound_profile: bound,
        git_name,
        git_email,
        remote,
        status,
        detail,
    }
}


// ---------------------------------------------------------------------------
// Scanning approved roots.
// ---------------------------------------------------------------------------

/// Reported for a root that no longer exists or is not a directory.
pub const MISSING_ROOT_MESSAGE: &'static str = "approved root no longer exists or is not a directory";

/// Reported for a root whose walk reached `MAX_SCANNED_DIRECTORIES`.
pub const EXHAUSTED_ROOT_MESSAGE: &'static str = "stopped after 20000 directories; narrow the approved root";

/// A directory entry as read during a walk: its path, its name, and
/// whether it is a directory and whether it is a symbolic link (`None` when
/// its type could not be read).
#[derive(Debug)]
pub struct DirEntry {
    pub path: String,
    pub name: String,
    pub kind: Option<(bool, bool)>,
}

pub ghost struct EntryView {
    pub path: Seq<char>,
    pub name: Seq<char>,
    pub kind: Option<(bool, bool)>,
}

impl View for DirEntry {
    type V = EntryView;

    open spec fn view(&self) -> EntryView {
        EntryView { path: self.path@, name: self.name@, kind: self.kind }
    }
}

/// What the caller reports back after carrying out the scan's last action.
#[derive(Debug)]
pub enum ScanInput {
    /// After an emitted event, or to start.
    Resume,
    /// Whether the root is a directory.
    RootChecked(bool),
    /// The directory with symbolic links resolved, if it could be.
    Canonical(Option<String>),
    /// Whether the directory holds a `.git` directory or file.
    Marker(bool),
    /// The repository's summary, if it could be made.
    Summary(Option<RepositorySummary>),
    /// The directory's entries, if it could be read.
    Entries(Option<Vec<DirEntry>>),
}

/// What the scan asks of its caller next.
#[derive(Debug)]
pub enum ScanAction {
    Emit(RepositoryScanEvent),
    CheckRoot(String),
    Canonicalize(String),
    ProbeMarker(String),
    Summarize(String),
    ReadDir(String),
    Finish(Vec<RepositorySummary>),
    Idle,
}

#[derive(Debug)]
enum Phase {
    Begin,
    NextRoot,
    StartRoot,
    CheckingRoot,
    Walk,
    Canonicalizing { dir: String, depth: usize },
    Probing { dir: String, depth: usize },
    Summarizing { dir: String },
    Reading { dir: String, depth: usize },
    Finishing,
    Done,
}

pub ghost enum PhaseView {
    Begin,
    NextRoot,
    StartRoot,
    CheckingRoot,
    Walk,
    Canonicalizing { dir: Seq<char>, depth: int },
    Probing { dir: Seq<char>, depth: int },
    Summarizing { dir: Seq<char> },
    Reading { dir: Seq<char>, depth: int },
    Finishing,
    Done,
}

pub ghost enum InputView {
    Resume,
    RootChecked(bool),
    Canonical(Option<Seq<char>>),
    Marker(bool),
    Summary(Option<SummaryView>),
    Entries(Option<Seq<EntryView>>),
}

pub ghost enum EventView {
    Started { roots: int },
    RootStarted { root: Seq<char> },
    RepositoryFound { repository: SummaryView },
    RootUnavailable { root: Seq<char>, message: Seq<char> },
    Finished { repositories: int, cancelled: bool },
}

pub ghost enum ActionView {
    Emit(EventView),
    CheckRoot(Seq<char>),
    Canonicalize(Seq<char>),
    ProbeMarker(Seq<char>),
    Summarize(Seq<char>),
    ReadDir(Seq<char>),
    Finish(Seq<SummaryView>),
    Idle,
}

pub open spec fn entries_view(v: Vec<DirEntry>) -> Seq<EntryView> {
    v@.map_values(|e: DirEntry| e@)
}

pub open spec fn summaries_view(v: Vec<RepositorySummary>) -> Seq<SummaryView> {
    v@.map_values(|s: RepositorySummary| s@)
}

impl View for ScanInput {
    type V = InputView;

    open spec fn view(&self) -> InputView {
        match self {
            ScanInput::Resume => InputView::Resume,
            ScanInput::RootChecked(b) => InputView::RootChecked(*b),
            ScanInput::Canonical(c) => InputView::Canonical(opt_view(*c)),
            ScanInput::Marker(b) => InputView::Marker(*b),
            ScanInput::Summary(s) => InputView::Summary(
                match s {
                    Some(x) => Some(x@),
                    None => None,
                },
            ),
            ScanInput::Entries(e) => InputView::Entries(
                match e {
                    Some(x) => Some(entries_view(*x)),
                    None => None,
                },
            ),
        }
    }
}

impl View for RepositoryScanEvent {
    type V = EventView;

    open spec fn view(&self) -> EventView {
        match self {
            RepositoryScanEvent::Started { roots } => EventView::Started { roots: *roots as int },
            RepositoryScanEvent::RootStarted { root } => EventView::RootStarted { root: root@ },
            RepositoryScanEvent::RepositoryFound { repository } => EventView::RepositoryFound {
                repository: (**repository)@,
            },
            RepositoryScanEvent::RootUnavailable { root, message } => EventView::RootUnavailable {
                root: root@,
                message: message@,
            },
            RepositoryScanEvent::Finished { repositories, cancelled } => EventView::Finished {
                repositories: *repositories as int,
                cancelled: *cancelled,
            },
        }
    }
}

impl View for ScanAction {
    type V = ActionView;

    open spec fn view(&self) -> ActionView {
        match self {
            ScanAction::Emit(e) => ActionView::Emit(e@),
            ScanAction::CheckRoot(p) => ActionView::CheckRoot(p@),
            ScanAction::Canonicalize(p) => ActionView::Canonicalize(p@),
            ScanAction::ProbeMarker(p) => ActionView::ProbeMarker(p@),
            ScanAction::Summarize(p) => ActionView::Summarize(p@),
            ScanAction::ReadDir(p) => ActionView::ReadDir(p@),
            ScanAction::Finish(v) => ActionView::Finish(summaries_view(*v)),
            ScanAction::Idle => ActionView::Idle,
        }
    }
}

pub ghost struct ScanView {
    pub roots: Seq<Seq<char>>,
    pub index: int,
    pub phase: PhaseView,
    pub stack: Seq<(Seq<char>, int)>,
    pub visited: Seq<Seq<char>>,
    pub seen: Seq<Seq<char>>,
    pub found: Seq<SummaryView>,
    pub exhausted: bool,
    pub windows: bool,
}

// --- The order of the results -------------------------------------------

/// `x` placed after every element whose key is not greater than its own.
pub open spec fn insert_by_key(s: Seq<SummaryView>, x: SummaryView, windows: bool) -> Seq<SummaryView>
    decreases s.len(),
{
    if s.len() == 0 {
        seq![x]
    } else if seq_lt(key_of(x.path, windows), key_of(s.last().path, windows)) {
        insert_by_key(s.drop_last(), x, windows).push(s.last())
    } else {
        s.push(x)
    }
}

/// The summaries ordered by the keys of their paths; equal keys keep their
/// order (a stable sort).
pub open spec fn sort_by_key(s: Seq<SummaryView>, windows: bool) -> Seq<SummaryView>
    decreases s.len(),
{
    if s.len() == 0 {
        s
    } else {
        insert_by_key(sort_by_key(s.drop_last(), windows), s.last(), windows)
    }
}

/// No summary's key is smaller than that of a summary before it.
pub open spec fn keys_ordered(s: Seq<SummaryView>, windows: bool) -> bool {
    forall|i: int, j: int|
        0 <= i < j < s.len() ==> !seq_lt(key_of(#[trigger] s[j].path, windows), key_of(#[trigger] s[i].path, windows))
}

proof fn lemma_insert_by_key_at(s: Seq<SummaryView>, x: SummaryView, windows: bool, j: int)
    requires
        0 <= j <= s.len(),
        forall|k: int| j <= k < s.len() ==> seq_lt(key_of(x.path, windows), key_of(#[trigger] s[k].path, windows)),
        j > 0 ==> !seq_lt(key_of(x.path, windows), key_of(s[j - 1].path, windows)),
    ensures
        insert_by_key(s, x, windows) == s.insert(j, x),
    decreases s.len(),
{
    if s.len() == 0 {
        assert(s.insert(j, x) =~= seq![x]);
    } else if j == s.len() {
        assert(s.insert(j, x) =~= s.push(x));
    } else {
        lemma_insert_by_key_at(s.drop_last(), x, windows, j);
        assert(s.drop_last().insert(j, x).push(s.last()) =~= s.insert(j, x));
    }
}

proof fn lemma_insert_keeps_order(s: Seq<SummaryView>, x: SummaryView, windows: bool, j: int)
    requires
        keys_ordered(s, windows),
        0 <= j <= s.len(),
        forall|k: int| j <= k < s.len() ==> seq_lt(key_of(x.path, windows), key_of(#[trigger] s[k].path, windows)),
        j > 0 ==> !seq_lt(key_of(x.path, windows), key_of(s[j - 1].path, windows)),
    ensures
        keys_ordered(s.insert(j, x), windows),
{
    let n = s.insert(j, x);
    let kx = key_of(x.path, windows);
    assert forall|p: int, q: int| 0 <= p < q < n.len() implies !seq_lt(
        key_of(#[trigger] n[q].path, windows),
        key_of(#[trigger] n[p].path, windows),
    ) by {
        if q < j {
            assert(n[p] == s[p] && n[q] == s[q]);
        } else if q == j {
            assert(n[p] == s[p]);
            let kp = key_of(s[p].path, windows);
            let kl = key_of(s[j - 1].path, windows);
            if p < j - 1 {
                assert(!seq_lt(kl, kp));
            }
            if seq_lt(kx, kp) {
                if p == j - 1 {
                } else if seq_lt(kp, kl) {
                    crate::profiles::lemma_lt_transitive(kx, kp, kl);
                } else if kp != kl {
                    crate::profiles::lemma_lt_total(kp, kl);
                }
            }
        } else if p == j {
            assert(n[q] == s[q - 1]);
            crate::profiles::lemma_lt_asymmetric(kx, key_of(s[q - 1].path, windows));
        } else if p < j {
            assert(n[p] == s[p] && n[q] == s[q - 1]);
        } else {
            assert(n[p] == s[p - 1] && n[q] == s[q - 1]);
        }
    }
}

fn insert_summary(out: &mut Vec<RepositorySummary>, x: RepositorySummary, windows: bool)
    requires
        keys_ordered(summaries_view(*old(out)), windows),
    ensures
        summaries_view(*final(out)) == insert_by_key(summaries_view(*old(out)), x@, windows),
        keys_ordered(summaries_view(*final(out)), windows),
{
    let ghost s = summaries_view(*out);
    let kx = path_key(x.path.as_str(), windows);
    let mut j: usize = out.len();
    while j > 0 && str_lt(kx.as_str(), path_key(out[j - 1].path.as_str(), windows).as_str())
        invariant
            j <= out.len(),
            s == summaries_view(*out),
            kx@ == key_of(x@.path, windows),
            forall|k: int| j <= k < s.len() ==> seq_lt(key_of(x@.path, windows), key_of(#[trigger] s[k].path, windows)),
        decreases j,
    {
        j = j - 1;
    }
    proof {
        lemma_insert_by_key_at(s, x@, windows, j as int);
        lemma_insert_keeps_order(s, x@, windows, j as int);
    }
    let ghost xv = x@;
    out.insert(j, x);
    assert(summaries_view(*out) =~= s.insert(j as int, xv));
}

/// Orders summaries by the keys of their paths, keeping the order of equal
/// keys.
pub fn sort_summaries(v: Vec<RepositorySummary>, windows: bool) -> (r: Vec<RepositorySummary>)
    ensures
        summaries_view(r) == sort_by_key(summaries_view(v), windows),
        keys_ordered(summaries_view(r), windows),
{
    let ghost sv = summaries_view(v);
    let mut out: Vec<RepositorySummary> = Vec::new();
    let rest = v;
    let mut i: usize = 0;
    let n = rest.len();
    assert(sv.subrange(0, 0) =~= Seq::<SummaryView>::empty());
    while i < n
        invariant
            i <= n,
            n == sv.len(),
            rest.len() == n,
            summaries_view(rest) == sv,
            summaries_view(out) == sort_by_key(sv.subrange(0, i as int), windows),
            keys_ordered(summaries_view(out), windows),
        decreases n - i,
    {
        let x = rest[i].clone();
        let ghost t = sv.subrange(0, i + 1);
        assert(t.drop_last() =~= sv.subrange(0, i as int));
        assert(t.last() == sv[i as int]);
        insert_summary(&mut out, x, windows);
        i = i + 1;
    }
    assert(sv.subrange(0, n as int) =~= sv);
    out
}

/// Where `insert_by_key` puts `x`: after the last element whose key is
/// not greater than its own.
pub open spec fn insert_pos(s: Seq<SummaryView>, x: SummaryView, windows: bool) -> int
    decreases s.len(),
{
    if s.len() == 0 {
        0
    } else if seq_lt(key_of(x.path, windows), key_of(s.last().path, windows)) {
        insert_pos(s.drop_last(), x, windows)
    } else {
        s.len() as int
    }
}

proof fn lemma_insert_pos(s: Seq<SummaryView>, x: SummaryView, windows: bool)
    ensures
        0 <= insert_pos(s, x, windows) <= s.len(),
        forall|k: int|
            insert_pos(s, x, windows) <= k < s.len() ==> seq_lt(key_of(x.path, windows), key_of(#[trigger] s[k].path, windows)),
        insert_pos(s, x, windows) > 0 ==> !seq_lt(
            key_of(x.path, windows),
            key_of(s[insert_pos(s, x, windows) - 1].path, windows),
        ),
    decreases s.len(),
{
    if s.len() > 0 && seq_lt(key_of(x.path, windows), key_of(s.last().path, windows)) {
        lemma_insert_pos(s.drop_last(), x, windows);
        let j = insert_pos(s, x, windows);
        assert forall|k: int| j <= k < s.len() implies seq_lt(key_of(x.path, windows), key_of(#[trigger] s[k].path, windows)) by {
            if k < s.len() - 1 {
                assert(s[k] == s.drop_last()[k]);
            }
        }
        if j > 0 {
            assert(s[j - 1] == s.drop_last()[j - 1]);
        }
    }
}

/// However the summaries came, the sorted list is ordered by key.
pub proof fn lemma_sorted_results_are_ordered(s: Seq<SummaryView>, windows: bool)
    ensures
        keys_ordered(sort_by_key(s, windows), windows),
    decreases s.len(),
{
    if s.len() > 0 {
        lemma_sorted_results_are_ordered(s.drop_last(), windows);
        let t = sort_by_key(s.drop_last(), windows);
        let x = s.last();
        lemma_insert_pos(t, x, windows);
        let j = insert_pos(t, x, windows);
        lemma_insert_by_key_at(t, x, windows, j);
        lemma_insert_keeps_order(t, x, windows, j);
    }
}


/// No two summaries share a key.
pub open spec fn distinct_keys(s: Seq<SummaryView>, windows: bool) -> bool {
    forall|i: int, j: int|
        0 <= i < j < s.len() ==> key_of(#[trigger] s[i].path, windows) != key_of(#[trigger] s[j].path, windows)
}

proof fn lemma_sort_elements(s: Seq<SummaryView>, windows: bool)
    ensures
        sort_by_key(s, windows).len() == s.len(),
        forall|i: int| 0 <= i < s.len() ==> s.contains(#[trigger] sort_by_key(s, windows)[i]),
    decreases s.len(),
{
    if s.len() > 0 {
        let d = s.drop_last();
        lemma_sort_elements(d, windows);
        let t = sort_by_key(d, windows);
        let x = s.last();
        lemma_insert_pos(t, x, windows);
        let j = insert_pos(t, x, windows);
        lemma_insert_by_key_at(t, x, windows, j);
        let r = t.insert(j, x);
        assert forall|i: int| 0 <= i < s.len() implies s.contains(#[trigger] sort_by_key(s, windows)[i]) by {
            assert(sort_by_key(s, windows) == r);
            if i == j {
                assert(s[s.len() - 1] == x);
            } else {
                let e = if i < j { t[i] } else { t[i - 1] };
                assert(r[i] == e);
                assert(d.contains(e));
                let k = choose|k: int| 0 <= k < d.len() && d[k] == e;
                assert(s[k] == d[k]);
            }
        }
    }
}

/// Sorting keeps keys apart when they were apart.
proof fn lemma_sort_keeps_keys_distinct(s: Seq<SummaryView>, windows: bool)
    requires
        distinct_keys(s, windows),
    ensures
        distinct_keys(sort_by_key(s, windows), windows),
    decreases s.len(),
{
    if s.len() > 0 {
        let d = s.drop_last();
        assert forall|i: int, j: int| 0 <= i < j < d.len() implies key_of(#[trigger] d[i].path, windows) != key_of(
            #[trigger] d[j].path,
            windows,
        ) by {
            assert(d[i] == s[i] && d[j] == s[j]);
        }
        lemma_sort_keeps_keys_distinct(d, windows);
        lemma_sort_elements(d, windows);
        let t = sort_by_key(d, windows);
        let x = s.last();
        lemma_insert_pos(t, x, windows);
        let j = insert_pos(t, x, windows);
        lemma_insert_by_key_at(t, x, windows, j);
        assert forall|i: int| 0 <= i < t.len() implies key_of(#[trigger] t[i].path, windows) != key_of(x.path, windows) by {
            assert(d.contains(t[i]));
            let k = choose|k: int| 0 <= k < d.len() && d[k] == t[i];
            assert(s[k] == d[k]);
            assert(x == s[s.len() - 1]);
        }
        let r = t.insert(j, x);
        assert forall|a: int, b: int| 0 <= a < b < r.len() implies key_of(#[trigger] r[a].path, windows) != key_of(
            #[trigger] r[b].path,
            windows,
        ) by {
            if a == j {
                assert(r[b] == t[b - 1]);
            } else if b == j {
                assert(r[a] == t[a]);
            } else {
                let ea = if a < j { a } else { a - 1 };
                let eb = if b < j { b } else { b - 1 };
                assert(r[a] == t[ea]);
                assert(r[b] == t[eb]);
            }
        }
    }
}

// --- The scan as a state machine ------------------------------------------

/// The subdirectories of a listing that a walk descends into, in listing
/// order: real directories (not links) whose names are not skipped, while
/// the depth allows.
pub open spec fn children(es: Seq<EntryView>, depth: int) -> Seq<(Seq<char>, int)>
    decreases es.len(),
{
    if es.len() == 0 {
        Seq::empty()
    } else {
        let e = es.last();
        let rest = children(es.drop_last(), depth);
        if e.kind == Some((true, false)) && !skipped_name(e.name) && depth < MAX_SCAN_DEPTH {
            rest.push((e.path, depth + 1))
        } else {
            rest
        }
    }
}

/// The scan after its last root: results ordered by key, and the
/// `Finished` event with their number and whether it was cancelled.
pub open spec fn scan_finish(v: ScanView, cancelled: bool) -> (ScanView, ActionView) {
    let sorted = sort_by_key(v.found, v.windows);
    (
        ScanView { phase: PhaseView::Finishing, found: sorted, ..v },
        ActionView::Emit(EventView::Finished { repositories: sorted.len() as int, cancelled }),
    )
}

/// On to the next root, unless none is left or the scan was cancelled.
pub open spec fn scan_next_root(v: ScanView, cancelled: bool) -> (ScanView, ActionView) {
    if v.index >= v.roots.len() || cancelled {
        scan_finish(v, cancelled)
    } else {
        (
            ScanView { phase: PhaseView::StartRoot, ..v },
            ActionView::Emit(EventView::RootStarted { root: v.roots[v.index] }),
        )
    }
}

/// The end of a root's walk: reported when the walk was cut short.
pub open spec fn scan_end_root(v: ScanView, cancelled: bool) -> (ScanView, ActionView) {
    if v.exhausted {
        (
            ScanView { phase: PhaseView::NextRoot, index: v.index + 1, ..v },
            ActionView::Emit(
                EventView::RootUnavailable { root: v.roots[v.index], message: EXHAUSTED_ROOT_MESSAGE@ },
            ),
        )
    } else {
        scan_next_root(ScanView { index: v.index + 1, ..v }, cancelled)
    }
}

/// The next directory of the walk, unless it is over, cancelled, or has
/// visited as many directories as it may.
pub open spec fn scan_walk(v: ScanView, cancelled: bool) -> (ScanView, ActionView) {
    if v.stack.len() == 0 || cancelled {
        scan_end_root(v, cancelled)
    } else if v.visited.len() >= MAX_SCANNED_DIRECTORIES {
        scan_end_root(ScanView { exhausted: true, ..v }, cancelled)
    } else {
        let top = v.stack.last();
        (
            ScanView {
                stack: v.stack.drop_last(),
                phase: PhaseView::Canonicalizing { dir: top.0, depth: top.1 },
                ..v
            },
            ActionView::Canonicalize(top.0),
        )
    }
}

/// One step of the scan: the state and input given, the next state and
/// what the caller must do. An input that does not answer the pending
/// request counts as that request failing.
pub open spec fn scan_step(v: ScanView, input: InputView, cancelled: bool) -> (ScanView, ActionView) {
    match v.phase {
        PhaseView::Begin => (
            ScanView { phase: PhaseView::NextRoot, ..v },
            ActionView::Emit(EventView::Started { roots: v.roots.len() as int }),
        ),
        PhaseView::NextRoot => scan_next_root(v, cancelled),
        PhaseView::StartRoot => (
            ScanView { phase: PhaseView::CheckingRoot, ..v },
            ActionView::CheckRoot(v.roots[v.index]),
        ),
        PhaseView::CheckingRoot => match input {
            InputView::RootChecked(true) => scan_walk(
                ScanView {
                    stack: seq![(v.roots[v.index], 0int)],
                    visited: Seq::empty(),
                    exhausted: false,
                    ..v
                },
                cancelled,
            ),
            _ => (
                ScanView { phase: PhaseView::NextRoot, index: v.index + 1, ..v },
                ActionView::Emit(
                    EventView::RootUnavailable { root: v.roots[v.index], message: MISSING_ROOT_MESSAGE@ },
                ),
            ),
        },
        PhaseView::Walk => scan_walk(v, cancelled),
        PhaseView::Canonicalizing { dir, depth } => match input {
            InputView::Canonical(Some(c)) => if v.visited.contains(key_of(c, v.windows)) {
                scan_walk(v, cancelled)
            } else {
                (
                    ScanView {
                        visited: v.visited.push(key_of(c, v.windows)),
                        phase: PhaseView::Probing { dir: c, depth },
                        ..v
                    },
                    ActionView::ProbeMarker(c),
                )
            },
            _ => scan_walk(v, cancelled),
        },
        PhaseView::Probing { dir, depth } => match input {
            InputView::Marker(true) => if v.seen.contains(key_of(dir, v.windows)) {
                scan_walk(v, cancelled)
            } else {
                (
                    ScanView {
                        seen: v.seen.push(key_of(dir, v.windows)),
                        phase: PhaseView::Summarizing { dir },
                        ..v
                    },
                    ActionView::Summarize(dir),
                )
            },
            InputView::Marker(false) => (
                ScanView { phase: PhaseView::Reading { dir, depth }, ..v },
                ActionView::ReadDir(dir),
            ),
            _ => scan_walk(v, cancelled),
        },
        PhaseView::Summarizing { dir } => match input {
            InputView::Summary(Some(s)) => (
                ScanView { found: v.found.push(s), phase: PhaseView::Walk, ..v },
                ActionView::Emit(EventView::RepositoryFound { repository: s }),
            ),
            _ => scan_walk(v, cancelled),
        },
        PhaseView::Reading { dir, depth } => match input {
            InputView::Entries(Some(es)) => scan_walk(
                ScanView { stack: v.stack + children(es, depth), ..v },
                cancelled,
            ),
            _ => scan_walk(v, cancelled),
        },
        PhaseView::Finishing => (
            ScanView { phase: PhaseView::Done, found: Seq::empty(), ..v },
            ActionView::Finish(v.found),
        ),
        PhaseView::Done => (v, ActionView::Idle),
    }
}

/// The bounds every scan state keeps: a walk never goes deeper than
/// `MAX_SCAN_DEPTH` nor visits more than `MAX_SCANNED_DIRECTORIES`
/// directories, and no repository is summarised twice.
pub open spec fn scan_bounds(v: ScanView) -> bool {
    &&& 0 <= v.index <= v.roots.len()
    &&& v.visited.len() <= MAX_SCANNED_DIRECTORIES
    &&& forall|i: int| 0 <= i < v.stack.len() ==> 0 <= (#[trigger] v.stack[i]).1 <= MAX_SCAN_DEPTH
    &&& v.seen.no_duplicates()
}

/// While a root is walked, it is one of the roots; a directory about to be
/// visited still fits under the bound.
pub open spec fn scan_phase_ok(v: ScanView) -> bool {
    match v.phase {
        PhaseView::StartRoot | PhaseView::CheckingRoot | PhaseView::Walk | PhaseView::Summarizing { .. } => v.index
            < v.roots.len(),
        PhaseView::Canonicalizing { depth, .. } => v.index < v.roots.len() && 0 <= depth <= MAX_SCAN_DEPTH
            && v.visited.len() < MAX_SCANNED_DIRECTORIES,
        PhaseView::Probing { depth, .. } | PhaseView::Reading { depth, .. } => v.index < v.roots.len() && 0
            <= depth <= MAX_SCAN_DEPTH,
        _ => true,
    }
}

pub open spec fn scan_wf(v: ScanView) -> bool {
    scan_bounds(v) && scan_phase_ok(v)
}

proof fn lemma_children_depth(es: Seq<EntryView>, depth: int)
    requires
        0 <= depth,
    ensures
        forall|i: int| 0 <= i < children(es, depth).len() ==> 0 <= (#[trigger] children(es, depth)[i]).1 <= MAX_SCAN_DEPTH,
    decreases es.len(),
{
    if es.len() > 0 {
        lemma_children_depth(es.drop_last(), depth);
        let c = children(es, depth);
        let r = children(es.drop_last(), depth);
        assert forall|i: int| 0 <= i < c.len() implies 0 <= (#[trigger] c[i]).1 <= MAX_SCAN_DEPTH by {
            if i < r.len() {
                assert(c[i] == r[i]);
            }
        }
    }
}

proof fn lemma_next_root_wf(v: ScanView, cancelled: bool)
    requires
        scan_bounds(v),
    ensures
        scan_wf(scan_next_root(v, cancelled).0),
{
}

proof fn lemma_end_root_wf(v: ScanView, cancelled: bool)
    requires
        scan_bounds(v),
        v.index < v.roots.len(),
    ensures
        scan_wf(scan_end_root(v, cancelled).0),
{
    if !v.exhausted {
        lemma_next_root_wf(ScanView { index: v.index + 1, ..v }, cancelled);
    }
}

proof fn lemma_walk_wf(v: ScanView, cancelled: bool)
    requires
        scan_bounds(v),
        v.index < v.roots.len(),
    ensures
        scan_wf(scan_walk(v, cancelled).0),
{
    if v.stack.len() == 0 || cancelled {
        lemma_end_root_wf(v, cancelled);
    } else if v.visited.len() >= MAX_SCANNED_DIRECTORIES {
        lemma_end_root_wf(ScanView { exhausted: true, ..v }, cancelled);
    } else {
        let n = scan_walk(v, cancelled).0;
        assert(v.stack.last() == v.stack[v.stack.len() - 1]);
        assert forall|i: int| 0 <= i < n.stack.len() implies 0 <= (#[trigger] n.stack[i]).1 <= MAX_SCAN_DEPTH by {
            assert(n.stack[i] == v.stack[i]);
        }
    }
}

/// Every step keeps the scan within its bounds.
pub proof fn lemma_scan_step_keeps_bounds(v: ScanView, input: InputView, cancelled: bool)
    requires
        scan_wf(v),
    ensures
        scan_wf(scan_step(v, input, cancelled).0),
{
    match v.phase {
        PhaseView::NextRoot => lemma_next_root_wf(v, cancelled),
        PhaseView::Walk => lemma_walk_wf(v, cancelled),
        PhaseView::CheckingRoot => {
            match input {
                InputView::RootChecked(true) => {
                    let n = ScanView {
                        stack: seq![(v.roots[v.index], 0int)],
                        visited: Seq::empty(),
                        exhausted: false,
                        ..v
                    };
                    lemma_walk_wf(n, cancelled);
                },
                _ => {},
            }
        },
        PhaseView::Canonicalizing { dir, depth } => {
            match input {
                InputView::Canonical(Some(c)) => {
                    if v.visited.contains(key_of(c, v.windows)) {
                        lemma_walk_wf(v, cancelled);
                    }
                },
                _ => lemma_walk_wf(v, cancelled),
            }
        },
        PhaseView::Summarizing { dir } => {
            lemma_walk_wf(v, cancelled);
        },
        PhaseView::Reading { dir, depth } => {
            match input {
                InputView::Entries(Some(es)) => {
                    lemma_children_depth(es, depth);
                    let s2 = v.stack + children(es, depth);
                    assert forall|i: int| 0 <= i < s2.len() implies 0 <= (#[trigger] s2[i]).1 <= MAX_SCAN_DEPTH by {
                        if i >= v.stack.len() {
                            assert(s2[i] == children(es, depth)[i - v.stack.len()]);
                        } else {
                            assert(s2[i] == v.stack[i]);
                        }
                    }
                    lemma_walk_wf(ScanView { stack: s2, ..v }, cancelled);
                },
                _ => lemma_walk_wf(v, cancelled),
            }
        },
        PhaseView::Probing { dir, depth } => {
            match input {
                InputView::Marker(true) => {
                    if !v.seen.contains(key_of(dir, v.windows)) {
                        let s2 = v.seen.push(key_of(dir, v.windows));
                        assert forall|i: int, j: int| 0 <= i < s2.len() && 0 <= j < s2.len() && i != j implies s2[i] != s2[j] by {
                            if i < v.seen.len() && j < v.seen.len() {
                                assert(s2[i] == v.seen[i] && s2[j] == v.seen[j]);
                            } else if i == v.seen.len() {
                                assert(s2[j] == v.seen[j]);
                            } else {
                                assert(s2[i] == v.seen[i]);
                            }
                        }
                    } else {
                        lemma_walk_wf(v, cancelled);
                    }
                },
                InputView::Marker(false) => {},
                _ => lemma_walk_wf(v, cancelled),
            }
        },
        _ => {},
    }
}

// --- Whole runs of the scan -----------------------------------------------

/// A scan that has not started, over `roots`.
pub open spec fn scan_start(roots: Seq<Seq<char>>, windows: bool) -> ScanView {
    ScanView {
        roots,
        index: 0,
        phase: PhaseView::Begin,
        stack: Seq::empty(),
        visited: Seq::empty(),
        seen: Seq::empty(),
        found: Seq::empty(),
        exhausted: false,
        windows,
    }
}

/// The state after feeding `ins` (each input with the cancel flag of its
/// step) to the scan from `v`, and the actions it answered with.
pub open spec fn scan_run(v: ScanView, ins: Seq<(InputView, bool)>) -> (ScanView, Seq<ActionView>)
    decreases ins.len(),
{
    if ins.len() == 0 {
        (v, Seq::empty())
    } else {
        let before = scan_run(v, ins.drop_last());
        let next = scan_step(before.0, ins.last().0, ins.last().1);
        (next.0, before.1.push(next.1))
    }
}

/// The repositories the actions reported as found, in order.
pub open spec fn found_events(acts: Seq<ActionView>) -> Seq<SummaryView>
    decreases acts.len(),
{
    if acts.len() == 0 {
        Seq::empty()
    } else {
        let rest = found_events(acts.drop_last());
        match found_event_of(acts.last()) {
            Some(repository) => rest.push(repository),
            None => rest,
        }
    }
}

/// The keys of the directories the actions asked to summarise, in order.
pub open spec fn summarized_keys(acts: Seq<ActionView>, windows: bool) -> Seq<Seq<char>>
    decreases acts.len(),
{
    if acts.len() == 0 {
        Seq::empty()
    } else {
        let rest = summarized_keys(acts.drop_last(), windows);
        match acts.last() {
            ActionView::Summarize(dir) => rest.push(key_of(dir, windows)),
            _ => rest,
        }
    }
}

/// The repository a `RepositoryFound` event reports.
pub open spec fn found_event_of(a: ActionView) -> Option<SummaryView> {
    match a {
        ActionView::Emit(EventView::RepositoryFound { repository }) => Some(repository),
        _ => None,
    }
}

/// The count a `Finished` event reports.
pub open spec fn finished_count(a: ActionView) -> Option<int> {
    match a {
        ActionView::Emit(EventView::Finished { repositories, .. }) => Some(repositories),
        _ => None,
    }
}

/// The cancel flag a `Finished` event reports.
pub open spec fn finished_flag(a: ActionView) -> Option<bool> {
    match a {
        ActionView::Emit(EventView::Finished { cancelled, .. }) => Some(cancelled),
        _ => None,
    }
}

/// What a run keeps between its state and its actions so far.
pub open spec fn run_consistent(v: ScanView, acts: Seq<ActionView>, roots: Seq<Seq<char>>, windows: bool) -> bool {
    &&& scan_wf(v)
    &&& v.roots == roots
    &&& v.windows == windows
    &&& v.seen == summarized_keys(acts, windows)
    &&& (acts.len() == 0 <==> v.phase == PhaseView::Begin)
    &&& (v.phase is Summarizing ==> acts.len() > 0 && acts.last() == ActionView::Summarize(v.phase->Summarizing_dir))
    &&& match v.phase {
        PhaseView::Finishing => v.found == sort_by_key(found_events(acts), windows) && acts.len() > 0
            && finished_count(acts.last()) == Some(v.found.len() as int),
        PhaseView::Done => v.found.len() == 0,
        _ => v.found == found_events(acts),
    }
}

proof fn lemma_events_push(acts: Seq<ActionView>, a: ActionView, windows: bool)
    ensures
        found_events(acts.push(a)) == (match found_event_of(a) {
            Some(repository) => found_events(acts).push(repository),
            None => found_events(acts),
        }),
        summarized_keys(acts.push(a), windows) == (match a {
            ActionView::Summarize(dir) => summarized_keys(acts, windows).push(key_of(dir, windows)),
            _ => summarized_keys(acts, windows),
        }),
{
    assert(acts.push(a).drop_last() =~= acts);
}

proof fn lemma_next_root_shape(v: ScanView, cancelled: bool)
    ensures
        ({
            let (n, a) = scan_next_root(v, cancelled);
            &&& n.seen == v.seen
            &&& n.roots == v.roots
            &&& n.windows == v.windows
            &&& !(a is Summarize)
            &&& found_event_of(a) is None
            &&& n.phase != PhaseView::Begin
            &&& n.phase != PhaseView::Done
            &&& !(n.phase is Summarizing)
            &&& if n.phase == PhaseView::Finishing {
                n.found == sort_by_key(v.found, v.windows) && finished_count(a) == Some(n.found.len() as int)
                    && finished_flag(a) == Some(cancelled)
            } else {
                n.found == v.found
            }
        }),
{
}

/// The helpers that move on to a new root or end the scan report no
/// repository, ask for no summary, and leave the results as they were or
/// sorted with the `Finished` event.
proof fn lemma_walk_shape(v: ScanView, cancelled: bool)
    ensures
        ({
            let (n, a) = scan_walk(v, cancelled);
            &&& n.seen == v.seen
            &&& n.roots == v.roots
            &&& n.windows == v.windows
            &&& !(a is Summarize)
            &&& found_event_of(a) is None
            &&& n.phase != PhaseView::Begin
            &&& n.phase != PhaseView::Done
            &&& !(n.phase is Summarizing)
            &&& if n.phase == PhaseView::Finishing {
                n.found == sort_by_key(v.found, v.windows) && finished_count(a) == Some(n.found.len() as int)
                    && finished_flag(a) == Some(cancelled)
            } else {
                n.found == v.found
            }
        }),
{
    lemma_next_root_shape(v, cancelled);
    lemma_next_root_shape(ScanView { index: v.index + 1, ..v }, cancelled);
    lemma_next_root_shape(ScanView { exhausted: true, index: v.index + 1, ..v }, cancelled);
}

proof fn lemma_step_consistent(v: ScanView, acts: Seq<ActionView>, roots: Seq<Seq<char>>, windows: bool, input: InputView, cancelled: bool)
    requires
        run_consistent(v, acts, roots, windows),
    ensures
        run_consistent(scan_step(v, input, cancelled).0, acts.push(scan_step(v, input, cancelled).1), roots, windows),
{
    let (n, a) = scan_step(v, input, cancelled);
    lemma_scan_step_keeps_bounds(v, input, cancelled);
    lemma_events_push(acts, a, windows);
    assert(acts.push(a).last() == a);
    match v.phase {
        PhaseView::CheckingRoot => {
            let w = ScanView { stack: seq![(v.roots[v.index], 0int)], visited: Seq::empty(), exhausted: false, ..v };
            lemma_walk_shape(w, cancelled);
            assert(run_consistent(n, acts.push(a), roots, windows));
        },
        PhaseView::Reading { dir, depth } => {
            lemma_walk_shape(v, cancelled);
            match input {
                InputView::Entries(Some(es)) => {
                    lemma_walk_shape(ScanView { stack: v.stack + children(es, depth), ..v }, cancelled);
                },
                _ => {},
            }
            assert(run_consistent(n, acts.push(a), roots, windows));
        },
        PhaseView::NextRoot => {
            lemma_next_root_shape(v, cancelled);
            assert(run_consistent(n, acts.push(a), roots, windows));
        },
        PhaseView::Begin => {
            assert(acts.len() == 0);
            assert(found_events(acts) =~= Seq::<SummaryView>::empty());
            assert(run_consistent(n, acts.push(a), roots, windows));
        },
        PhaseView::Finishing => {
            assert(n.found.len() == 0);
            assert(run_consistent(n, acts.push(a), roots, windows));
        },
        PhaseView::StartRoot => {
            assert(run_consistent(n, acts.push(a), roots, windows));
        },
        PhaseView::Walk => {
            lemma_walk_shape(v, cancelled);
            assert(run_consistent(n, acts.push(a), roots, windows));
        },
        PhaseView::Canonicalizing { dir, depth } => {
            lemma_walk_shape(v, cancelled);
            assert(run_consistent(n, acts.push(a), roots, windows));
        },
        PhaseView::Probing { dir, depth } => {
            lemma_walk_shape(v, cancelled);
            assert(run_consistent(n, acts.push(a), roots, windows));
        },
        PhaseView::Summarizing { dir } => {
            lemma_walk_shape(v, cancelled);
            assert(run_consistent(n, acts.push(a), roots, windows));
        },
        PhaseView::Done => {
            assert(run_consistent(n, acts.push(a), roots, windows));
        },
    }
}

/// A step from `Done` stays done and answers `Idle`.
proof fn lemma_done_stays(v: ScanView, input: InputView, cancelled: bool)
    requires
        v.phase == PhaseView::Done,
    ensures
        scan_step(v, input, cancelled).0 == v,
        scan_step(v, input, cancelled).1 == ActionView::Idle,
{
}

/// Runs extend one another: the run of a prefix of the inputs gives the
/// prefix of the actions, and each action is the step from the state the
/// prefix reached.
proof fn lemma_run_prefix(v: ScanView, ins: Seq<(InputView, bool)>, k: int)
    requires
        0 <= k < ins.len(),
    ensures
        scan_run(v, ins).1.len() == ins.len(),
        scan_run(v, ins.take(k)).1 == scan_run(v, ins).1.take(k),
        scan_run(v, ins).1[k] == scan_step(scan_run(v, ins.take(k)).0, ins[k].0, ins[k].1).1,
        scan_run(v, ins.take(k + 1)).0 == scan_step(scan_run(v, ins.take(k)).0, ins[k].0, ins[k].1).0,
    decreases ins.len(),
{
    let d = ins.drop_last();
    assert(ins.take(k + 1).drop_last() =~= ins.take(k));
    assert(ins.take(k + 1).last() == ins[k]);
    if k == ins.len() - 1 {
        assert(ins.take(k) =~= d);
        assert(ins.take(k + 1) =~= ins);
        if d.len() > 0 {
            lemma_run_prefix(v, d, 0);
        }
        assert(scan_run(v, ins).1.take(k) =~= scan_run(v, d).1);
    } else {
        lemma_run_prefix(v, d, k);
        assert(d.take(k) =~= ins.take(k));
        assert(d[k] == ins[k]);
        assert(scan_run(v, ins).1.take(k) =~= scan_run(v, d).1.take(k));
    }
}

proof fn lemma_run_consistent(roots: Seq<Seq<char>>, windows: bool, ins: Seq<(InputView, bool)>)
    ensures
        run_consistent(scan_run(scan_start(roots, windows), ins).0, scan_run(scan_start(roots, windows), ins).1, roots, windows),
    decreases ins.len(),
{
    let v0 = scan_start(roots, windows);
    if ins.len() == 0 {
        assert(scan_run(v0, ins).1 =~= Seq::<ActionView>::empty());
        assert(v0.stack =~= Seq::<(Seq<char>, int)>::empty());
    } else {
        lemma_run_consistent(roots, windows, ins.drop_last());
        let before = scan_run(v0, ins.drop_last());
        lemma_step_consistent(before.0, before.1, roots, windows, ins.last().0, ins.last().1);
    }
}

/// What a whole run of the scan answers, whatever the file system reports:
/// it starts with the `Started` event for all roots; it never asks to
/// summarise the same directory twice; each repository it reports is the
/// summary given in answer to its summary request of the step before; and
/// when it hands over its results,
/// they are exactly the repositories it reported as found, ordered by the
/// keys of their paths, right after the `Finished` event that counts them
/// and carries the cancel flag of that step. After that it only idles.
pub proof fn lemma_scan_run(roots: Seq<Seq<char>>, windows: bool, ins: Seq<(InputView, bool)>)
    ensures
        ({
            let acts = scan_run(scan_start(roots, windows), ins).1;
            &&& acts.len() == ins.len()
            &&& ins.len() > 0 ==> acts[0] == ActionView::Emit(EventView::Started { roots: roots.len() as int })
            &&& summarized_keys(acts, windows).no_duplicates()
            &&& forall|k: int| #![trigger found_event_of(acts[k])]
                0 <= k < acts.len() && found_event_of(acts[k]) is Some ==> {
                    &&& k > 0
                    &&& acts[k - 1] is Summarize
                    &&& ins[k].0 == InputView::Summary(Some(found_event_of(acts[k])->0))
                }
            &&& forall|k: int| #![trigger acts[k]]
                0 <= k < acts.len() && acts[k] is Finish ==> {
                    let r = acts[k]->Finish_0;
                    &&& k > 0
                    &&& r == sort_by_key(found_events(acts.take(k)), windows)
                    &&& keys_ordered(r, windows)
                    &&& acts[k - 1] == ActionView::Emit(
                        EventView::Finished { repositories: r.len() as int, cancelled: ins[k - 1].1 },
                    )
                    &&& forall|j: int| k < j < acts.len() ==> acts[j] == ActionView::Idle
                }
        }),
{
    let v0 = scan_start(roots, windows);
    let acts = scan_run(v0, ins).1;
    lemma_run_consistent(roots, windows, ins);
    if ins.len() > 0 {
        lemma_run_prefix(v0, ins, 0);
        assert(ins.take(0) =~= Seq::<(InputView, bool)>::empty());
        assert(acts.len() == ins.len());
    }
    assert forall|k: int| #![trigger found_event_of(acts[k])]
        0 <= k < acts.len() && found_event_of(acts[k]) is Some implies {
            &&& k > 0
            &&& acts[k - 1] is Summarize
            &&& ins[k].0 == InputView::Summary(Some(found_event_of(acts[k])->0))
        } by {
        lemma_run_prefix(v0, ins, k);
        let vk = scan_run(v0, ins.take(k)).0;
        lemma_run_consistent(roots, windows, ins.take(k));
        lemma_found_answers_summary(vk, ins[k].0, ins[k].1);
        let ak = scan_run(v0, ins.take(k)).1;
        assert(ak == acts.take(k));
        assert(vk.phase != PhaseView::Begin);
        assert(ak.len() > 0);
        assert(ak.last() == acts[k - 1]);
    }
    assert forall|k: int| #![trigger acts[k]]
        0 <= k < acts.len() && acts[k] is Finish implies {
            let r = acts[k]->Finish_0;
            &&& k > 0
            &&& r == sort_by_key(found_events(acts.take(k)), windows)
            &&& keys_ordered(r, windows)
            &&& acts[k - 1] == ActionView::Emit(
                EventView::Finished { repositories: r.len() as int, cancelled: ins[k - 1].1 },
            )
            &&& forall|j: int| k < j < acts.len() ==> acts[j] == ActionView::Idle
        } by {
        lemma_run_prefix(v0, ins, k);
        let vk = scan_run(v0, ins.take(k)).0;
        lemma_run_consistent(roots, windows, ins.take(k));
        assert(vk.phase == PhaseView::Finishing);
        lemma_sorted_results_are_ordered(found_events(acts.take(k)), windows);
        let ak = scan_run(v0, ins.take(k)).1;
        assert(ak == acts.take(k));
        lemma_run_prefix(v0, ins, k - 1);
        assert(ak.last() == acts[k - 1]);
        let vk1 = scan_run(v0, ins.take(k - 1)).0;
        lemma_run_consistent(roots, windows, ins.take(k - 1));
        assert(ins.take(k - 1).len() == k - 1);
        lemma_finished_cancel_flag(vk1, ins[k - 1].0, ins[k - 1].1);
        assert forall|j: int| k < j < acts.len() implies acts[j] == ActionView::Idle by {
            lemma_done_after(v0, ins, k, j);
        }
    }
}

/// The only step that reaches `Finishing` emits `Finished` with the cancel
/// flag it was given.
proof fn lemma_finished_cancel_flag(v: ScanView, input: InputView, cancelled: bool)
    ensures
        scan_step(v, input, cancelled).0.phase == PhaseView::Finishing && v.phase != PhaseView::Finishing
            ==> finished_flag(scan_step(v, input, cancelled).1) == Some(cancelled),
{
    lemma_walk_shape(v, cancelled);
    match v.phase {
        PhaseView::CheckingRoot => {
            lemma_walk_shape(
                ScanView { stack: seq![(v.roots[v.index], 0int)], visited: Seq::empty(), exhausted: false, ..v },
                cancelled,
            );
        },
        PhaseView::Reading { dir, depth } => {
            match input {
                InputView::Entries(Some(es)) => {
                    lemma_walk_shape(ScanView { stack: v.stack + children(es, depth), ..v }, cancelled);
                },
                _ => {},
            }
        },
        _ => {},
    }
}

/// Once results are handed over at step `k`, every later step idles.
proof fn lemma_done_after(v0: ScanView, ins: Seq<(InputView, bool)>, k: int, j: int)
    requires
        0 <= k < j < ins.len(),
        scan_run(v0, ins).1[k] is Finish,
    ensures
        scan_run(v0, ins).1[j] == ActionView::Idle,
        scan_run(v0, ins.take(j)).0.phase == PhaseView::Done,
    decreases j - k,
{
    lemma_run_prefix(v0, ins, j);
    lemma_run_prefix(v0, ins, j - 1);
    let prev = scan_run(v0, ins.take(j - 1)).0;
    if j == k + 1 {
        assert(prev.phase == PhaseView::Finishing) by {
            lemma_only_finishing_hands_over(prev, ins[k].0, ins[k].1);
        }
    } else {
        lemma_done_after(v0, ins, k, j - 1);
        lemma_done_stays(prev, ins[j - 1].0, ins[j - 1].1);
    }
    let cur = scan_run(v0, ins.take(j)).0;
    lemma_done_stays(cur, ins[j].0, ins[j].1);
}

/// Only the `Finishing` phase hands over results, and it ends in `Done`.
proof fn lemma_only_finishing_hands_over(v: ScanView, input: InputView, cancelled: bool)
    ensures
        scan_step(v, input, cancelled).1 is Finish ==> v.phase == PhaseView::Finishing
            && scan_step(v, input, cancelled).0.phase == PhaseView::Done,
{
    lemma_walk_shape(v, cancelled);
    match v.phase {
        PhaseView::CheckingRoot => {
            lemma_walk_shape(
                ScanView { stack: seq![(v.roots[v.index], 0int)], visited: Seq::empty(), exhausted: false, ..v },
                cancelled,
            );
        },
        PhaseView::Reading { dir, depth } => {
            match input {
                InputView::Entries(Some(es)) => {
                    lemma_walk_shape(ScanView { stack: v.stack + children(es, depth), ..v }, cancelled);
                },
                _ => {},
            }
        },
        _ => {},
    }
}

/// Each summary handed to the scan describes the directory the scan asked
/// to summarise in the step before.
pub open spec fn summaries_answer_requests(ins: Seq<(InputView, bool)>, acts: Seq<ActionView>) -> bool {
    forall|k: int|
        #![trigger ins[k]]
        0 < k < ins.len() && k <= acts.len() && acts[k - 1] is Summarize && ins[k].0 is Summary && ins[k].0->Summary_0
            is Some ==> ins[k].0->Summary_0->0.path == acts[k - 1]->Summarize_0
}

/// What a run keeps of the repositories it reported, when summaries answer
/// the requests: their keys are distinct and already claimed, and the
/// directory being summarised is claimed but not yet reported.
pub open spec fn found_claimed(v: ScanView, acts: Seq<ActionView>, windows: bool) -> bool {
    let fe = found_events(acts);
    &&& distinct_keys(fe, windows)
    &&& forall|i: int| 0 <= i < fe.len() ==> v.seen.contains(key_of(#[trigger] fe[i].path, windows))
    &&& v.phase is Summarizing ==> {
        &&& v.seen.contains(key_of(v.phase->Summarizing_dir, windows))
        &&& forall|i: int| 0 <= i < fe.len() ==> key_of(#[trigger] fe[i].path, windows) != key_of(
            v.phase->Summarizing_dir,
            windows,
        )
    }
}

proof fn lemma_step_keeps_claimed(
    v: ScanView,
    acts: Seq<ActionView>,
    roots: Seq<Seq<char>>,
    windows: bool,
    input: InputView,
    cancelled: bool,
)
    requires
        run_consistent(v, acts, roots, windows),
        found_claimed(v, acts, windows),
        v.phase is Summarizing && input is Summary && input->Summary_0 is Some ==> input->Summary_0->0.path
            == v.phase->Summarizing_dir,
    ensures
        found_claimed(scan_step(v, input, cancelled).0, acts.push(scan_step(v, input, cancelled).1), windows),
{
    let (n, a) = scan_step(v, input, cancelled);
    let fe = found_events(acts);
    lemma_events_push(acts, a, windows);
    lemma_walk_shape(v, cancelled);
    match v.phase {
        PhaseView::CheckingRoot => {
            let w = ScanView { stack: seq![(v.roots[v.index], 0int)], visited: Seq::empty(), exhausted: false, ..v };
            lemma_walk_shape(w, cancelled);
        },
        PhaseView::Reading { dir, depth } => {
            match input {
                InputView::Entries(Some(es)) => {
                    lemma_walk_shape(ScanView { stack: v.stack + children(es, depth), ..v }, cancelled);
                },
                _ => {},
            }
        },
        PhaseView::NextRoot => lemma_next_root_shape(v, cancelled),
        PhaseView::Probing { dir, depth } => {
            let kd = key_of(dir, windows);
            match input {
                InputView::Marker(true) => {
                    if !v.seen.contains(kd) {
                        let s2 = v.seen.push(kd);
                        assert(s2[v.seen.len() as int] == kd);
                        assert forall|i: int| 0 <= i < fe.len() implies s2.contains(
                            key_of(#[trigger] fe[i].path, windows),
                        ) && key_of(fe[i].path, windows) != kd by {
                            let y = key_of(fe[i].path, windows);
                            assert(v.seen.contains(y));
                            let j = choose|j: int| 0 <= j < v.seen.len() && v.seen[j] == y;
                            assert(s2[j] == y);
                        }
                    }
                },
                _ => {},
            }
        },
        PhaseView::Summarizing { dir } => {
            match input {
                InputView::Summary(Some(x)) => {
                    let f2 = fe.push(x);
                    assert(found_events(acts.push(a)) == f2);
                    assert forall|i: int, j: int| 0 <= i < j < f2.len() implies key_of(#[trigger] f2[i].path, windows)
                        != key_of(#[trigger] f2[j].path, windows) by {
                        assert(f2[i] == fe[i]);
                        if j < fe.len() {
                            assert(f2[j] == fe[j]);
                        }
                    }
                    assert forall|i: int| 0 <= i < f2.len() implies n.seen.contains(key_of(#[trigger] f2[i].path, windows)) by {
                        if i < fe.len() {
                            assert(f2[i] == fe[i]);
                        }
                    }
                },
                _ => {},
            }
        },
        _ => {},
    }
}

/// When summaries answer the requests, the first `n` steps of a run keep
/// what `found_claimed` says.
proof fn lemma_run_claimed(roots: Seq<Seq<char>>, windows: bool, ins: Seq<(InputView, bool)>, n: int)
    requires
        0 <= n <= ins.len(),
        summaries_answer_requests(ins, scan_run(scan_start(roots, windows), ins).1),
    ensures
        found_claimed(
            scan_run(scan_start(roots, windows), ins.take(n)).0,
            scan_run(scan_start(roots, windows), ins.take(n)).1,
            windows,
        ),
    decreases n,
{
    let v0 = scan_start(roots, windows);
    let acts = scan_run(v0, ins).1;
    if n == 0 {
        assert(ins.take(0) =~= Seq::<(InputView, bool)>::empty());
        assert(scan_run(v0, ins.take(0)).1 =~= Seq::<ActionView>::empty());
        assert(found_events(Seq::<ActionView>::empty()) =~= Seq::<SummaryView>::empty());
    } else {
        lemma_run_claimed(roots, windows, ins, n - 1);
        lemma_run_prefix(v0, ins, n - 1);
        lemma_run_consistent(roots, windows, ins.take(n - 1));
        let prev = scan_run(v0, ins.take(n - 1));
        assert(prev.1 == acts.take(n - 1));
        if prev.0.phase is Summarizing {
            assert(prev.1.last() == acts[n - 2]);
        }
        lemma_step_keeps_claimed(prev.0, prev.1, roots, windows, ins[n - 1].0, ins[n - 1].1);
        assert(ins.take(n).drop_last() =~= ins.take(n - 1));
        assert(ins.take(n).last() == ins[n - 1]);
    }
}

/// When every summary handed to the scan describes the directory it was
/// asked about, the results it hands over never hold two repositories with
/// the same key: sorted by key, they strictly ascend.
pub proof fn lemma_scan_results_distinct(roots: Seq<Seq<char>>, windows: bool, ins: Seq<(InputView, bool)>)
    requires
        summaries_answer_requests(ins, scan_run(scan_start(roots, windows), ins).1),
    ensures
        forall|k: int|
            #![trigger scan_run(scan_start(roots, windows), ins).1[k]]
            0 <= k < ins.len() && scan_run(scan_start(roots, windows), ins).1[k] is Finish ==> distinct_keys(
                scan_run(scan_start(roots, windows), ins).1[k]->Finish_0,
                windows,
            ),
{
    let v0 = scan_start(roots, windows);
    let acts = scan_run(v0, ins).1;
    lemma_scan_run(roots, windows, ins);
    assert forall|k: int| #![trigger acts[k]] 0 <= k < ins.len() && acts[k] is Finish implies distinct_keys(
        acts[k]->Finish_0,
        windows,
    ) by {
        lemma_run_prefix(v0, ins, k);
        lemma_run_claimed(roots, windows, ins, k);
        assert(scan_run(v0, ins.take(k)).1 == acts.take(k));
        lemma_sort_keeps_keys_distinct(found_events(acts.take(k)), windows);
    }
}

/// The actions a scan that was cancelled before it began may answer with:
/// the `Started` event, a `Finished` event that counts nothing and says it
/// was cancelled, an empty hand-over, or idling.
pub open spec fn cancelled_action(a: ActionView) -> bool {
    match a {
        ActionView::Emit(EventView::Started { .. }) => true,
        ActionView::Emit(EventView::Finished { repositories, cancelled }) => repositories == 0 && cancelled,
        ActionView::Finish(r) => r.len() == 0,
        ActionView::Idle => true,
        _ => false,
    }
}

proof fn lemma_cancelled_states(roots: Seq<Seq<char>>, windows: bool, ins: Seq<(InputView, bool)>)
    requires
        forall|i: int| 0 <= i < ins.len() ==> (#[trigger] ins[i]).1,
    ensures
        ({
            let (v, acts) = scan_run(scan_start(roots, windows), ins);
            &&& acts.len() == ins.len()
            &&& v.found.len() == 0
            &&& (v.phase == PhaseView::Begin || v.phase == PhaseView::NextRoot || v.phase == PhaseView::Finishing
                || v.phase == PhaseView::Done)
            &&& forall|k: int| 0 <= k < acts.len() ==> cancelled_action(#[trigger] acts[k])
        }),
    decreases ins.len(),
{
    let v0 = scan_start(roots, windows);
    if ins.len() == 0 {
        assert(scan_run(v0, ins).1 =~= Seq::<ActionView>::empty());
    } else {
        let d = ins.drop_last();
        assert forall|i: int| 0 <= i < d.len() implies (#[trigger] d[i]).1 by {
            assert(d[i] == ins[i]);
        }
        lemma_cancelled_states(roots, windows, d);
        assert(ins.last() == ins[ins.len() - 1]);
        let before = scan_run(v0, d);
        let acts = scan_run(v0, ins).1;
        assert(acts == before.1.push(scan_step(before.0, ins.last().0, ins.last().1).1));
        assert(sort_by_key(before.0.found, windows) =~= before.0.found);
        assert forall|k: int| 0 <= k < acts.len() implies cancelled_action(#[trigger] acts[k]) by {
            if k < before.1.len() {
                assert(acts[k] == before.1[k]);
            }
        }
    }
}

/// A scan cancelled from its first step finishes without descending: it
/// never checks a root, visits or reads a directory, or asks for a summary;
/// it reports no repository, its `Finished` event counts none and says it
/// was cancelled, and it hands over no results.
pub proof fn lemma_cancelled_scan_finishes_without_descending(
    roots: Seq<Seq<char>>,
    windows: bool,
    ins: Seq<(InputView, bool)>,
)
    requires
        forall|i: int| 0 <= i < ins.len() ==> (#[trigger] ins[i]).1,
    ensures
        forall|k: int| 0 <= k < ins.len() ==> cancelled_action(#[trigger] scan_run(scan_start(roots, windows), ins).1[k]),
{
    lemma_cancelled_states(roots, windows, ins);
}

/// Each step that reports a repository answers a summary request of the
/// step before, and reports exactly the summary it was given.
proof fn lemma_found_answers_summary(v: ScanView, input: InputView, cancelled: bool)
    ensures
        found_event_of(scan_step(v, input, cancelled).1) is Some ==> v.phase is Summarizing
            && input == InputView::Summary(Some(found_event_of(scan_step(v, input, cancelled).1)->0)),
{
    lemma_walk_shape(v, cancelled);
    match v.phase {
        PhaseView::CheckingRoot => {
            lemma_walk_shape(
                ScanView { stack: seq![(v.roots[v.index], 0int)], visited: Seq::empty(), exhausted: false, ..v },
                cancelled,
            );
        },
        PhaseView::Reading { dir, depth } => {
            match input {
                InputView::Entries(Some(es)) => {
                    lemma_walk_shape(ScanView { stack: v.stack + children(es, depth), ..v }, cancelled);
                },
                _ => {},
            }
        },
        PhaseView::NextRoot => lemma_next_root_shape(v, cancelled),
        _ => {},
    }
}

// --- The executable scan ------------------------------------------------

/// A scan of the approved repository roots. The caller runs it: it calls
/// `step`, carries out the action returned (emits an event, checks or reads
/// the file system, summarises a repository) and reports back what came of
/// it, until the scan hands over its results.
#[derive(Debug)]
pub struct RepositoryScan {
    roots: Vec<String>,
    index: usize,
    phase: Phase,
    stack: Vec<(String, usize)>,
    visited: Vec<String>,
    seen: Vec<String>,
    found: Vec<RepositorySummary>,
    exhausted: bool,
    windows: bool,
}

pub open spec fn stack_view(v: Vec<(String, usize)>) -> Seq<(Seq<char>, int)> {
    v@.map_values(|e: (String, usize)| (e.0@, e.1 as int))
}

spec fn phase_view(p: Phase) -> PhaseView {
    match p {
        Phase::Begin => PhaseView::Begin,
        Phase::NextRoot => PhaseView::NextRoot,
        Phase::StartRoot => PhaseView::StartRoot,
        Phase::CheckingRoot => PhaseView::CheckingRoot,
        Phase::Walk => PhaseView::Walk,
        Phase::Canonicalizing { dir, depth } => PhaseView::Canonicalizing { dir: dir@, depth: depth as int },
        Phase::Probing { dir, depth } => PhaseView::Probing { dir: dir@, depth: depth as int },
        Phase::Summarizing { dir } => PhaseView::Summarizing { dir: dir@ },
        Phase::Reading { dir, depth } => PhaseView::Reading { dir: dir@, depth: depth as int },
        Phase::Finishing => PhaseView::Finishing,
        Phase::Done => PhaseView::Done,
    }
}

impl View for RepositoryScan {
    type V = ScanView;

    closed spec fn view(&self) -> ScanView {
        ScanView {
            roots: crate::config::strings_view(self.roots),
            index: self.index as int,
            phase: phase_view(self.phase),
            stack: stack_view(self.stack),
            visited: crate::config::strings_view(self.visited),
            seen: crate::config::strings_view(self.seen),
            found: summaries_view(self.found),
            exhausted: self.exhausted,
            windows: self.windows,
        }
    }
}

fn has_string(v: &Vec<String>, s: &str) -> (r: bool)
    ensures
        r == crate::config::strings_view(*v).contains(s@),
{
    let ghost sv = crate::config::strings_view(*v);
    let mut i: usize = 0;
    while i < v.len()
        invariant
            i <= v.len(),
            sv == crate::config::strings_view(*v),
            forall|j: int| 0 <= j < i ==> sv[j] != s@,
        decreases v.len() - i,
    {
        if str_eq(v[i].as_str(), s) {
            assert(sv[i as int] == s@);
            return true;
        }
        i = i + 1;
    }
    false
}

fn push_string(v: &mut Vec<String>, s: String)
    ensures
        crate::config::strings_view(*final(v)) == crate::config::strings_view(*old(v)).push(s@),
{
    let ghost before = crate::config::strings_view(*v);
    let ghost sv = s@;
    v.push(s);
    assert(crate::config::strings_view(*v) =~= before.push(sv));
}

impl RepositoryScan {
    /// A scan of the configuration's approved roots, in their order.
    pub fn new(config: &Config, windows: bool) -> (r: Self)
        ensures
            r@ == (ScanView {
                roots: crate::config::strings_view(config.repository_roots),
                index: 0,
                phase: PhaseView::Begin,
                stack: Seq::empty(),
                visited: Seq::empty(),
                seen: Seq::empty(),
                found: Seq::empty(),
                exhausted: false,
                windows,
            }),
            r.wf(),
    {
        let r = RepositoryScan {
            roots: crate::config::clone_strings(&config.repository_roots),
            index: 0,
            phase: Phase::Begin,
            stack: Vec::new(),
            visited: Vec::new(),
            seen: Vec::new(),
            found: Vec::new(),
            exhausted: false,
            windows,
        };
        assert(stack_view(r.stack) =~= Seq::<(Seq<char>, int)>::empty());
        assert(crate::config::strings_view(r.visited) =~= Seq::<Seq<char>>::empty());
        assert(crate::config::strings_view(r.seen) =~= Seq::<Seq<char>>::empty());
        assert(summaries_view(r.found) =~= Seq::<SummaryView>::empty());
        r
    }

    /// The scan is within its bounds.
    pub open spec fn wf(&self) -> bool {
        scan_wf(self@)
    }

    fn finish(&mut self, cancelled: bool) -> (r: ScanAction)
        ensures
            (final(self)@, r@) == scan_finish(old(self)@, cancelled),
    {
        let mut found: Vec<RepositorySummary> = Vec::new();
        std::mem::swap(&mut found, &mut self.found);
        let sorted = sort_summaries(found, self.windows);
        let n = sorted.len();
        self.found = sorted;
        self.phase = Phase::Finishing;
        ScanAction::Emit(RepositoryScanEvent::Finished { repositories: n, cancelled })
    }

    fn next_root(&mut self, cancelled: bool) -> (r: ScanAction)
        requires
            old(self).index <= old(self).roots.len(),
        ensures
            (final(self)@, r@) == scan_next_root(old(self)@, cancelled),
    {
        if self.index >= self.roots.len() || cancelled {
            return self.finish(cancelled);
        }
        self.phase = Phase::StartRoot;
        ScanAction::Emit(RepositoryScanEvent::RootStarted { root: self.roots[self.index].clone() })
    }

    fn end_root(&mut self, cancelled: bool) -> (r: ScanAction)
        requires
            old(self).index < old(self).roots.len(),
        ensures
            (final(self)@, r@) == scan_end_root(old(self)@, cancelled),
    {
        if self.exhausted {
            let root = self.roots[self.index].clone();
            self.index = self.index + 1;
            self.phase = Phase::NextRoot;
            return ScanAction::Emit(
                RepositoryScanEvent::RootUnavailable { root, message: EXHAUSTED_ROOT_MESSAGE.to_string() },
            );
        }
        self.index = self.index + 1;
        self.next_root(cancelled)
    }

    fn walk(&mut self, cancelled: bool) -> (r: ScanAction)
        requires
            old(self).index < old(self).roots.len(),
        ensures
            (final(self)@, r@) == scan_walk(old(self)@, cancelled),
    {
        if self.stack.len() == 0 || cancelled {
            return self.end_root(cancelled);
        }
        if self.visited.len() >= MAX_SCANNED_DIRECTORIES {
            self.exhausted = true;
            return self.end_root(cancelled);
        }
        let ghost before = stack_view(self.stack);
        let top = match self.stack.pop() {
            Some(t) => t,
            None => {
                return self.end_root(cancelled);
            },
        };
        assert(stack_view(self.stack) =~= before.drop_last());
        let (dir, depth) = top;
        let request = dir.clone();
        self.phase = Phase::Canonicalizing { dir, depth };
        ScanAction::Canonicalize(request)
    }

    fn push_children(&mut self, entries: &Vec<DirEntry>, depth: usize)
        requires
            depth <= MAX_SCAN_DEPTH,
        ensures
            final(self)@ == (ScanView { stack: old(self)@.stack + children(entries_view(*entries), depth as int), ..old(self)@ }),
    {
        let ghost base = stack_view(self.stack);
        let ghost es = entries_view(*entries);
        let mut i: usize = 0;
        assert(es.subrange(0, 0) =~= Seq::<EntryView>::empty());
        assert(base + children(es.subrange(0, 0), depth as int) =~= base);
        while i < entries.len()
            invariant
                i <= entries.len(),
                depth <= MAX_SCAN_DEPTH,
                es == entries_view(*entries),
                stack_view(self.stack) == base + children(es.subrange(0, i as int), depth as int),
                self@ == (ScanView { stack: stack_view(self.stack), ..old(self)@ }),
            decreases entries.len() - i,
        {
            let ghost t = es.subrange(0, i + 1);
            assert(t.drop_last() =~= es.subrange(0, i as int));
            assert(t.last() == es[i as int]);
            let e = &entries[i];
            let descend = match e.kind {
                Some((true, false)) => !is_skipped(e.name.as_str()) && depth < MAX_SCAN_DEPTH,
                _ => false,
            };
            if descend {
                let ghost before = stack_view(self.stack);
                self.stack.push((e.path.clone(), depth + 1));
                assert(stack_view(self.stack) =~= before.push((e.path@, depth + 1)));
            }
            i = i + 1;
        }
        assert(es.subrange(0, entries.len() as int) =~= es);
    }

    /// One step of the scan: what came of the last action goes in, the
    /// next action comes out. `cancelled` is whether the caller has been
    /// asked to stop.
    pub fn step(&mut self, input: ScanInput, cancelled: bool) -> (r: ScanAction)
        requires
            old(self).wf(),
        ensures
            final(self)@ == scan_step(old(self)@, input@, cancelled).0,
            r@ == scan_step(old(self)@, input@, cancelled).1,
            final(self).wf(),
    {
        proof {
            lemma_scan_step_keeps_bounds(self@, input@, cancelled);
        }
        match &self.phase {
            Phase::Begin => {
                self.phase = Phase::NextRoot;
                ScanAction::Emit(RepositoryScanEvent::Started { roots: self.roots.len() })
            },
            Phase::NextRoot => self.next_root(cancelled),
            Phase::StartRoot => {
                self.phase = Phase::CheckingRoot;
                ScanAction::CheckRoot(self.roots[self.index].clone())
            },
            Phase::CheckingRoot => match input {
                ScanInput::RootChecked(true) => {
                    let root = self.roots[self.index].clone();
                    self.stack = vec![(root, 0)];
                    self.visited = Vec::new();
                    self.exhausted = false;
                    assert(crate::config::strings_view(self.visited) =~= Seq::<Seq<char>>::empty());
                    assert(stack_view(self.stack) =~= seq![(self.roots@[self.index as int]@, 0int)]);
                    self.walk(cancelled)
                },
                _ => {
                    assert(self@.index < self@.roots.len());
                    assert(self.index < self.roots.len());
                    let root = self.roots[self.index].clone();
                    self.index = self.index + 1;
                    self.phase = Phase::NextRoot;
                    ScanAction::Emit(
                        RepositoryScanEvent::RootUnavailable { root, message: MISSING_ROOT_MESSAGE.to_string() },
                    )
                },
            },
            Phase::Walk => self.walk(cancelled),
            Phase::Canonicalizing { depth, .. } => {
                let depth = *depth;
                match input {
                    ScanInput::Canonical(Some(c)) => {
                        let key = path_key(c.as_str(), self.windows);
                        if has_string(&self.visited, key.as_str()) {
                            self.walk(cancelled)
                        } else {
                            push_string(&mut self.visited, key);
                            let request = c.clone();
                            self.phase = Phase::Probing { dir: c, depth };
                            ScanAction::ProbeMarker(request)
                        }
                    },
                    _ => self.walk(cancelled),
                }
            },
            Phase::Probing { dir, depth } => {
                let dir = dir.clone();
                let depth = *depth;
                match input {
                    ScanInput::Marker(true) => {
                        let key = path_key(dir.as_str(), self.windows);
                        if has_string(&self.seen, key.as_str()) {
                            self.walk(cancelled)
                        } else {
                            push_string(&mut self.seen, key);
                            let request = dir.clone();
                            self.phase = Phase::Summarizing { dir };
                            ScanAction::Summarize(request)
                        }
                    },
                    ScanInput::Marker(false) => {
                        let request = dir.clone();
                        self.phase = Phase::Reading { dir, depth };
                        ScanAction::ReadDir(request)
                    },
                    _ => self.walk(cancelled),
                }
            },
            Phase::Summarizing { .. } => {
                match input {
                    ScanInput::Summary(Some(summary)) => {
                        let copy = summary.clone();
                        let ghost before = summaries_view(self.found);
                        self.found.push(summary);
                        assert(summaries_view(self.found) =~= before.push(copy@));
                        self.phase = Phase::Walk;
                        ScanAction::Emit(RepositoryScanEvent::RepositoryFound { repository: Box::new(copy) })
                    },
                    _ => self.walk(cancelled),
                }
            },
            Phase::Reading { depth, .. } => {
                let depth = *depth;
                match input {
                    ScanInput::Entries(Some(entries)) => {
                        self.push_children(&entries, depth);
                        self.walk(cancelled)
                    },
                    _ => self.walk(cancelled),
                }
            },
            Phase::Finishing => {
                let mut found: Vec<RepositorySummary> = Vec::new();
                std::mem::swap(&mut found, &mut self.found);
                self.phase = Phase::Done;
                assert(summaries_view(self.found) =~= Seq::<SummaryView>::empty());
                ScanAction::Finish(found)
            },
            Phase::Done => ScanAction::Idle,
        }
    }
}

} // verus!
