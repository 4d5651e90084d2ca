//! Staged multi-file publication: every output is written to a staging path first, then
//! promoted, with the finals it replaces kept aside as `.prev` backups, so that a failed
//! publish leaves the previous snapshot intact: replaced finals get their backups back and
//! finals that did not exist are removed. The file operations are the caller's; this module
//! decides which ones come next.
use vstd::prelude::*;
use crate::text::{decimal, owned, push_char, push_decimal, push_str, to_chars};

verus! {

/// A label made safe for a directory name: every character but an ASCII letter or digit
/// becomes `-`.
pub open spec fn sanitized_label(label: Seq<char>) -> Seq<char> {
    label.map_values(|c: char| if ('a' <= c <= 'z') || ('A' <= c <= 'Z') || ('0' <= c <= '9') { c } else { '-' })
}

pub fn sanitize_label(label: &str) -> (r: String)
    ensures
        r@ == sanitized_label(label@),
{
    let v = to_chars(label);
    let mut out = String::new();
    let mut i: usize = 0;
    while i < v.len()
        invariant
            i <= v@.len(),
            v@ == label@,
            out@ == sanitized_label(v@.take(i as int)),
        decreases v.len() - i,
    {
        let c = v[i];
        let d = if ('a' <= c && c <= 'z') || ('A' <= c && c <= 'Z') || ('0' <= c && c <= '9') { c } else { '-' };
        push_char(&mut out, d);
        assert(out@ =~= sanitized_label(v@.take(i + 1)));
        i = i + 1;
    }
    assert(v@.take(v@.len() as int) =~= v@);
    out
}

/// The last component of a path (the text after its last `/`).
pub open spec fn path_file_name(path: Seq<char>) -> Seq<char> {
    if exists|i: int| 0 <= i < path.len() && path[i] == '/' {
        let i = choose|i: int| 0 <= i < path.len() && path[i] == '/' && forall|j: int| i < j < path.len() ==> path[j] != '/';
        path.skip(i + 1)
    } else {
        path
    }
}

fn path_file_name_exec(path: &str) -> (r: String)
    ensures
        r@ == path_file_name(path@),
{
    let v = to_chars(path);
    let mut i: usize = v.len();
    while i > 0
        invariant
            i <= v@.len(),
            v@ == path@,
            forall|j: int| i <= j < v@.len() ==> v@[j] != '/',
        decreases i,
    {
        if v[i - 1] == '/' {
            let ghost k = (i - 1) as int;
            let ghost c = choose|c: int| 0 <= c < path@.len() && path@[c] == '/' && forall|j: int| c < j < path@.len() ==> path@[j] != '/';
            assert(c == k) by {
                if c < k {
                    assert(path@[k] != '/');
                }
                if c > k {
                    assert(v@[c] != '/');
                }
            }
            let r = crate::text::from_char_range(&v, i, v.len());
            assert(r@ =~= path@.skip(k + 1));
            return r;
        }
        i = i - 1;
    }
    owned(path)
}

/// Staged multi-file publish: write to staging paths, then promote.
pub struct BundlePublisher {
    label: String,
    staging_root: String,
    /// (staging path, final path)
    entries: Vec<(String, String)>,
}

/// The staging directory of a bundle: `{base_dir}/.publish-{sanitized label}-{process id}`.
pub open spec fn staging_root_of(label: Seq<char>, base_dir: Seq<char>, process_id: u32) -> Seq<char> {
    base_dir + "/.publish-"@ + sanitized_label(label) + seq!['-'] + decimal(process_id as nat)
}

/// The staging path of the `index`-th staged final: `{staging root}/{index}_{file name}`,
/// so that finals with the same name in different directories stay apart.
pub open spec fn staging_path_of(staging_root: Seq<char>, index: nat, final_path: Seq<char>) -> Seq<char> {
    staging_root + seq!['/'] + decimal(index) + seq!['_'] + path_file_name(final_path)
}

/// The backup of a final that a publish replaces: `{final}.prev`.
pub open spec fn backup_path_of(final_path: Seq<char>) -> Seq<char> {
    final_path + ".prev"@
}

/// Staged files never collide: the staging paths of two different entries of a bundle
/// differ, whatever their finals (even finals with the same file name in different
/// directories).
pub proof fn lemma_staging_paths_distinct(root: Seq<char>, i: nat, j: nat, final_i: Seq<char>, final_j: Seq<char>)
    requires
        i != j,
    ensures
        staging_path_of(root, i, final_i) != staging_path_of(root, j, final_j),
{
    let a = decimal(i) + seq!['_'] + path_file_name(final_i);
    let b = decimal(j) + seq!['_'] + path_file_name(final_j);
    crate::text::lemma_decimal_digits(i);
    crate::text::lemma_decimal_digits(j);
    if staging_path_of(root, i, final_i) == staging_path_of(root, j, final_j) {
        let pre = root + seq!['/'];
        assert(staging_path_of(root, i, final_i) =~= pre + a);
        assert(staging_path_of(root, j, final_j) =~= pre + b);
        assert((pre + a).skip(pre.len() as int) =~= a);
        assert((pre + b).skip(pre.len() as int) =~= b);
        assert(a == b);
        let li = decimal(i).len() as int;
        let lj = decimal(j).len() as int;
        if li < lj {
            assert(a[li] == '_');
            assert(b[li] == decimal(j)[li]);
        } else if lj < li {
            assert(b[lj] == '_');
            assert(a[lj] == decimal(i)[lj]);
        } else {
            assert(a.take(li) =~= decimal(i));
            assert(b.take(lj) =~= decimal(j));
            crate::text::lemma_decimal_injective(i, j);
        }
    }
}

impl BundlePublisher {
    pub closed spec fn label_view(&self) -> Seq<char> {
        self.label@
    }

    pub closed spec fn root_view(&self) -> Seq<char> {
        self.staging_root@
    }

    /// The staged `(staging path, final path)` pairs, in staging order.
    pub closed spec fn entries_view(&self) -> Seq<(Seq<char>, Seq<char>)> {
        self.entries@.map_values(|e: (String, String)| (e.0@, e.1@))
    }

    /// A new bundle for `label` under `base_dir`, its staging directory named with the
    /// process id (the caller creates it, removing what a previous run left there).
    pub fn new(label: &str, base_dir: &str, process_id: u32) -> (r: Self)
        ensures
            r.label_view() == label@,
            r.root_view() == staging_root_of(label@, base_dir@, process_id),
            r.entries_view().len() == 0,
    {
        let mut root = owned(base_dir);
        push_str(&mut root, "/.publish-");
        let s = sanitize_label(label);
        push_str(&mut root, s.as_str());
        push_char(&mut root, '-');
        push_decimal(&mut root, process_id as u64);
        let r = BundlePublisher { label: owned(label), staging_root: root, entries: Vec::new() };
        assert(r.entries_view() =~= Seq::<(Seq<char>, Seq<char>)>::empty());
        r
    }

    pub fn staging_root(&self) -> (r: &str)
        ensures
            r@ == self.root_view(),
    {
        self.staging_root.as_str()
    }

    pub fn label(&self) -> (r: &str)
        ensures
            r@ == self.label_view(),
    {
        self.label.as_str()
    }

    pub fn len(&self) -> (r: usize)
        ensures
            r == self.entries_view().len(),
    {
        self.entries.len()
    }

    /// The `k`-th staged pair.
    pub fn entry(&self, k: usize) -> (r: (&str, &str))
        requires
            k < self.entries_view().len(),
        ensures
            (r.0@, r.1@) == self.entries_view()[k as int],
    {
        (self.entries[k].0.as_str(), self.entries[k].1.as_str())
    }

    /// Allocate a staging path that will be promoted to `final_path` on commit. A final path
    /// without a file name is refused.
    pub fn stage_path(&mut self, final_path: &str) -> (r: Result<String, String>)
        requires
            old(self).entries_view().len() < usize::MAX,
        ensures
            final(self).label_view() == old(self).label_view(),
            final(self).root_view() == old(self).root_view(),
            match r {
                Ok(staging) => {
                    &&& path_file_name(final_path@).len() > 0
                    &&& staging@ == staging_path_of(old(self).root_view(), old(self).entries_view().len(), final_path@)
                    &&& final(self).entries_view() == old(self).entries_view().push((staging@, final_path@))
                },
                Err(e) => {
                    &&& path_file_name(final_path@).len() == 0
                    &&& e@ == "final path has no file name"@
                    &&& final(self).entries_view() == old(self).entries_view()
                },
            },
    {
        let name = path_file_name_exec(final_path);
        if name.as_str().unicode_len() == 0 {
            return Err(owned("final path has no file name"));
        }
        let idx = self.entries.len();
        let mut staging = self.staging_root.clone();
        push_char(&mut staging, '/');
        push_decimal(&mut staging, idx as u64);
        push_char(&mut staging, '_');
        push_str(&mut staging, name.as_str());
        let ghost before = self.entries_view();
        self.entries.push((staging.clone(), owned(final_path)));
        assert(self.entries_view() =~= before.push((staging@, final_path@)));
        Ok(staging)
    }
}

// ---------------------------------------------------------------------------
// Commit
// ---------------------------------------------------------------------------

/// The next file operation of a commit.
pub enum CommitAction {
    /// Check that the staging file exists (answer `StagingExists`).
    CheckStaging { staging: String },
    /// Create the final's directory and check whether the final exists (answer
    /// `FinalExists`, or `Failed`).
    PrepareFinal { final_path: String },
    /// Rename the final to its backup (answer `Succeeded` or `Failed`).
    BackUp { final_path: String, backup: String },
    /// Rename the staging file to the final (answer `Succeeded` or `Failed`).
    Promote { staging: String, final_path: String },
    /// Every final is in place: remove these backups and the staging directory.
    Finish { remove_backups: Vec<String> },
    /// The publish failed: for each `(final, backup)` in this order remove the final and,
    /// where there is a backup, rename it to the final; then remove the staging directory
    /// and report the error. A final without a backup did not exist before the publish.
    RollBack { undo: Vec<(String, Option<String>)>, error: String },
}

/// What the caller reports of the last operation.
pub enum CommitEvent {
    StagingExists(bool),
    FinalExists(bool),
    Succeeded,
    Failed(String),
}

/// Which answer a commit waits for.
#[derive(Debug, Clone, Copy, PartialEq, Eq, Structural)]
pub enum CommitWait {
    Staging,
    Final,
    Backup,
    Promote,
    Closed,
}

/// The state of a commit: the entry being promoted, the finals touched so far with their
/// backups (none for a final that did not exist and was put in place), whether the final of
/// the entry being promoted was backed up, and the answer awaited.
pub struct CommitState {
    pub next: usize,
    pub touched: Vec<(String, Option<String>)>,
    pub backed_up: bool,
    pub wait: CommitWait,
    /// The entry that each touched final belongs to.
    pub touched_entries: Ghost<Seq<int>>,
}

pub open spec fn touched_of(v: Seq<(String, Option<String>)>) -> Seq<(Seq<char>, Option<Seq<char>>)> {
    v.map_values(|e: (String, Option<String>)| (e.0@, e.1.deep_view()))
}

/// The backups among touched finals, in order.
pub open spec fn backups_in(t: Seq<(Seq<char>, Option<Seq<char>>)>) -> Seq<Seq<char>>
    decreases t.len(),
{
    if t.len() == 0 {
        Seq::empty()
    } else {
        let prev = backups_in(t.drop_last());
        match t.last().1 {
            Some(b) => prev.push(b),
            None => prev,
        }
    }
}

/// Whether an event answers what the state waits for.
pub open spec fn event_fits(wait: CommitWait, event: CommitEvent) -> bool {
    match wait {
        CommitWait::Staging => event is StagingExists,
        CommitWait::Final => event is FinalExists || event is Failed,
        CommitWait::Backup | CommitWait::Promote => event is Succeeded || event is Failed,
        CommitWait::Closed => false,
    }
}

/// The commit state is consistent with the bundle: the entry being promoted is one of its
/// entries; the touched finals are those of the entries before it, in entry order, each
/// once (and the one being promoted, once it is backed up); a backup is the final's `.prev`.
pub open spec fn commit_state_ok(entries: Seq<(Seq<char>, Seq<char>)>, s: CommitState) -> bool {
    let t = touched_of(s.touched@);
    let idx = s.touched_entries@;
    &&& s.wait != CommitWait::Closed ==> s.next < entries.len()
    &&& s.backed_up ==> s.wait == CommitWait::Promote
    &&& idx.len() == t.len()
    &&& forall|j: int| 0 <= j < idx.len() ==> 0 <= #[trigger] idx[j] < entries.len()
        && (idx[j] < s.next || (idx[j] == s.next && s.backed_up) || s.wait == CommitWait::Closed)
    &&& forall|i: int, j: int| 0 <= i < j < idx.len() ==> idx[i] < idx[j]
    &&& forall|j: int| 0 <= j < idx.len() ==> (#[trigger] t[j]).0 == entries[idx[j]].1
        && (t[j].1 matches Some(b) ==> b == backup_path_of(entries[idx[j]].1))
    &&& s.wait != CommitWait::Closed ==> forall|i: int| 0 <= i < s.next ==> #[trigger] idx.contains(i)
    &&& s.backed_up ==> idx.len() > 0 && idx.last() == s.next && t.last().1 is Some
}

fn copy_opt(o: &Option<String>) -> (r: Option<String>)
    ensures
        r.deep_view() == o.deep_view(),
{
    match o {
        Some(s) => Some(owned(s.as_str())),
        None => None,
    }
}

/// Undo every touched final, latest first.
fn rollback(touched: &Vec<(String, Option<String>)>, error: String) -> (r: CommitAction)
    ensures
        r matches CommitAction::RollBack { undo, error: e } && touched_of(undo@) == touched_of(touched@).reverse()
            && e@ == error@,
{
    let ghost t = touched_of(touched@);
    let mut undo: Vec<(String, Option<String>)> = Vec::new();
    let mut i: usize = touched.len();
    while i > 0
        invariant
            i <= touched@.len(),
            t == touched_of(touched@),
            touched_of(undo@).len() == t.len() - i,
            forall|k: int| 0 <= k < touched_of(undo@).len() ==> #[trigger] touched_of(undo@)[k] == t[t.len() - 1 - k],
        decreases i,
    {
        let ghost before = touched_of(undo@);
        undo.push((owned(touched[i - 1].0.as_str()), copy_opt(&touched[i - 1].1)));
        assert(touched_of(undo@) =~= before.push(t[i - 1]));
        i = i - 1;
    }
    assert(touched_of(undo@) =~= t.reverse());
    CommitAction::RollBack { undo, error }
}

/// The first operation of a commit: check the first staging file, or finish at once when
/// nothing was staged.
pub fn commit_start(bundle: &BundlePublisher) -> (r: (CommitState, CommitAction))
    ensures
        commit_state_ok(bundle.entries_view(), r.0),
        r.0.next == 0,
        r.0.touched@.len() == 0,
        bundle.entries_view().len() == 0 ==> (r.0.wait == CommitWait::Closed
            && (r.1 matches CommitAction::Finish { remove_backups } && remove_backups@.len() == 0)),
        bundle.entries_view().len() > 0 ==> (r.0.wait == CommitWait::Staging
            && (r.1 matches CommitAction::CheckStaging { staging } && staging@ == bundle.entries_view()[0].0)),
{
    let state0 = CommitState { next: 0, touched: Vec::new(), backed_up: false, wait: CommitWait::Closed, touched_entries: Ghost(Seq::empty()) };
    assert(touched_of(state0.touched@) =~= Seq::<(Seq<char>, Option<Seq<char>>)>::empty());
    if bundle.len() == 0 {
        (state0, CommitAction::Finish { remove_backups: Vec::new() })
    } else {
        let (staging, _) = bundle.entry(0);
        let state = CommitState { next: 0, touched: Vec::new(), backed_up: false, wait: CommitWait::Staging, touched_entries: Ghost(Seq::empty()) };
        assert(touched_of(state.touched@) =~= Seq::<(Seq<char>, Option<Seq<char>>)>::empty());
        (state, CommitAction::CheckStaging { staging: owned(staging) })
    }
}

/// The operation that follows an answer. A missing staging file or a failed operation rolls
/// back every final touched so far, latest first: a replaced final gets its backup back, a
/// final that did not exist is removed. An existing final is backed up to `{final}.prev`
/// before it is replaced; after the last entry is promoted the commit finishes and drops
/// the backups.
pub fn commit_step(bundle: &BundlePublisher, state: &mut CommitState, event: CommitEvent) -> (r: CommitAction)
    requires
        commit_state_ok(bundle.entries_view(), *old(state)),
        event_fits(old(state).wait, event),
    ensures
        commit_state_ok(bundle.entries_view(), *final(state)),
        r is RollBack ==> (r matches CommitAction::RollBack { undo, .. }
            && touched_of(undo@) == touched_of(old(state).touched@).reverse()
            && final(state).wait == CommitWait::Closed),
        r matches CommitAction::RollBack { undo, .. } ==> forall|i: int|
            #![trigger bundle.entries_view()[i]]
            0 <= i < old(state).next ==> exists|k: int|
                0 <= k < undo@.len() && (#[trigger] touched_of(undo@)[k]).0 == bundle.entries_view()[i].1,
        r matches CommitAction::RollBack { undo, .. } ==> forall|k: int|
            0 <= k < undo@.len() ==> ((#[trigger] touched_of(undo@)[k]).1 matches Some(b) ==> b == backup_path_of(touched_of(undo@)[k].0)),
        r matches CommitAction::Finish { remove_backups } ==> final(state).wait == CommitWait::Closed
            && old(state).wait == CommitWait::Promote && old(state).next + 1 == bundle.entries_view().len()
            && remove_backups.deep_view() == backups_in(touched_of(old(state).touched@)),
        match (old(state).wait, event) {
            (CommitWait::Staging, CommitEvent::StagingExists(exists)) =>
                if exists {
                    &&& r matches CommitAction::PrepareFinal { final_path } && final_path@ == bundle.entries_view()[old(state).next as int].1
                    &&& final(state).wait == CommitWait::Final && final(state).next == old(state).next
                    &&& final(state).touched@ == old(state).touched@
                } else {
                    r matches CommitAction::RollBack { error, .. } && error@ == "bundle "@ + bundle.label_view()
                        + ": staging file missing: "@ + bundle.entries_view()[old(state).next as int].0
                },
            (CommitWait::Final, CommitEvent::FinalExists(exists)) =>
                if exists {
                    &&& r matches CommitAction::BackUp { final_path, backup }
                        && final_path@ == bundle.entries_view()[old(state).next as int].1
                        && backup@ == backup_path_of(final_path@)
                    &&& final(state).wait == CommitWait::Backup && final(state).next == old(state).next
                    &&& final(state).touched@ == old(state).touched@
                } else {
                    &&& r matches CommitAction::Promote { staging, final_path }
                        && (staging@, final_path@) == bundle.entries_view()[old(state).next as int]
                    &&& final(state).wait == CommitWait::Promote && final(state).next == old(state).next
                    &&& !final(state).backed_up
                    &&& final(state).touched@ == old(state).touched@
                },
            (CommitWait::Backup, CommitEvent::Succeeded) => {
                &&& r matches CommitAction::Promote { staging, final_path }
                    && (staging@, final_path@) == bundle.entries_view()[old(state).next as int]
                &&& final(state).wait == CommitWait::Promote && final(state).next == old(state).next
                &&& final(state).backed_up
                &&& touched_of(final(state).touched@) == touched_of(old(state).touched@).push((
                    bundle.entries_view()[old(state).next as int].1, Some(backup_path_of(bundle.entries_view()[old(state).next as int].1))))
            },
            (CommitWait::Promote, CommitEvent::Succeeded) =>
                if old(state).next + 1 < bundle.entries_view().len() {
                    &&& r matches CommitAction::CheckStaging { staging } && staging@ == bundle.entries_view()[old(state).next + 1].0
                    &&& final(state).wait == CommitWait::Staging && final(state).next == old(state).next + 1
                    &&& touched_of(final(state).touched@) == if old(state).backed_up {
                        touched_of(old(state).touched@)
                    } else {
                        touched_of(old(state).touched@).push((bundle.entries_view()[old(state).next as int].1, None))
                    }
                } else {
                    r is Finish
                },
            (_, CommitEvent::Failed(e)) => r matches CommitAction::RollBack { error, .. } && error@ == e@,
            _ => true,
        },
{
    let ghost entries = bundle.entries_view();
    let ghost old_state = *state;
    let ghost t0 = touched_of(state.touched@);
    let ghost idx0 = state.touched_entries@;
    let action = match event {
        CommitEvent::Failed(e) => {
            let a = rollback(&state.touched, e);
            state.wait = CommitWait::Closed;
            state.backed_up = false;
            a
        },
        CommitEvent::StagingExists(exists) => {
            let (staging, final_path) = bundle.entry(state.next);
            if exists {
                state.wait = CommitWait::Final;
                CommitAction::PrepareFinal { final_path: owned(final_path) }
            } else {
                let mut msg = owned("bundle ");
                push_str(&mut msg, bundle.label());
                push_str(&mut msg, ": staging file missing: ");
                push_str(&mut msg, staging);
                let a = rollback(&state.touched, msg);
                state.wait = CommitWait::Closed;
                state.backed_up = false;
                a
            }
        },
        CommitEvent::FinalExists(exists) => {
            let (staging, final_path) = bundle.entry(state.next);
            if exists {
                let mut backup = owned(final_path);
                push_str(&mut backup, ".prev");
                state.wait = CommitWait::Backup;
                CommitAction::BackUp { final_path: owned(final_path), backup }
            } else {
                state.wait = CommitWait::Promote;
                state.backed_up = false;
                CommitAction::Promote { staging: owned(staging), final_path: owned(final_path) }
            }
        },
        CommitEvent::Succeeded => {
            if state.wait == CommitWait::Backup {
                let (staging, final_path) = bundle.entry(state.next);
                let mut backup = owned(final_path);
                push_str(&mut backup, ".prev");
                state.touched.push((owned(final_path), Some(backup)));
                assert(touched_of(state.touched@) =~= t0.push((final_path@, Some(backup_path_of(final_path@)))));
                state.wait = CommitWait::Promote;
                state.backed_up = true;
                proof {
                    state.touched_entries = Ghost(idx0.push(state.next as int));
                    assert(forall|j: int| 0 <= j < idx0.len() ==> state.touched_entries@[j] == idx0[j]);
                    assert forall|i: int| 0 <= i < state.next implies #[trigger] state.touched_entries@.contains(i) by {
                        assert(idx0.contains(i));
                        let j = choose|j: int| 0 <= j < idx0.len() && idx0[j] == i;
                        assert(state.touched_entries@[j] == i);
                    }
                }
                CommitAction::Promote { staging: owned(staging), final_path: owned(final_path) }
            } else {
                let n = bundle.len();
                assert(state.next < n);
                if !state.backed_up {
                    let (_, final_path) = bundle.entry(state.next);
                    state.touched.push((owned(final_path), None));
                    assert(touched_of(state.touched@) =~= t0.push((final_path@, None)));
                    proof {
                        state.touched_entries = Ghost(idx0.push(state.next as int));
                        assert(forall|j: int| 0 <= j < idx0.len() ==> state.touched_entries@[j] == idx0[j]);
                        assert(touched_of(state.touched@).drop_last() =~= t0);
                    }
                }
                let ghost t1 = touched_of(state.touched@);
                let ghost idx1 = state.touched_entries@;
                proof {
                    assert(backups_in(t1) == backups_in(t0)) by {
                        if !old_state.backed_up {
                            assert(t1.drop_last() =~= t0);
                        }
                    }
                    assert forall|i: int| 0 <= i < state.next + 1 implies #[trigger] idx1.contains(i) by {
                        if i < state.next {
                            assert(idx0.contains(i));
                            let j = choose|j: int| 0 <= j < idx0.len() && idx0[j] == i;
                            assert(idx1[j] == i);
                        } else {
                            assert(idx1[idx1.len() - 1] == i);
                        }
                    }
                }
                state.backed_up = false;
                let next = state.next + 1;
                if next < n {
                    let (staging, _) = bundle.entry(next);
                    state.next = next;
                    state.wait = CommitWait::Staging;
                    CommitAction::CheckStaging { staging: owned(staging) }
                } else {
                    let mut remove: Vec<String> = Vec::new();
                    let mut i: usize = 0;
                    while i < state.touched.len()
                        invariant
                            i <= state.touched@.len(),
                            t1 == touched_of(state.touched@),
                            remove.deep_view() == backups_in(t1.take(i as int)),
                        decreases state.touched.len() - i,
                    {
                        let ghost before = remove.deep_view();
                        assert(t1.take(i + 1).drop_last() =~= t1.take(i as int));
                        assert(t1.take(i + 1).last() == t1[i as int]);
                        match &state.touched[i].1 {
                            Some(b) => {
                                remove.push(owned(b.as_str()));
                                assert(remove.deep_view() =~= before.push(b@));
                            },
                            None => {},
                        }
                        i = i + 1;
                    }
                    assert(t1.take(state.touched@.len() as int) =~= t1);
                    state.wait = CommitWait::Closed;
                    CommitAction::Finish { remove_backups: remove }
                }
            }
        },
    };
    proof {
        if action is RollBack {
            assert forall|i: int| #![trigger entries[i]] 0 <= i < old_state.next implies exists|k: int|
                0 <= k < t0.reverse().len() && (#[trigger] t0.reverse()[k]).0 == entries[i].1 by {
                assert(idx0.contains(i));
                let j = choose|j: int| 0 <= j < idx0.len() && idx0[j] == i;
                assert(t0.reverse()[t0.len() - 1 - j] == t0[j]);
            }
            assert forall|k: int| 0 <= k < t0.reverse().len() implies ((#[trigger] t0.reverse()[k]).1 matches Some(b) ==> b == backup_path_of(t0.reverse()[k].0)) by {
                assert(t0.reverse()[k] == t0[t0.len() - 1 - k]);
            }
        }
    }
    action
}


/// A file system as the rollback sees it: each path with its bytes.
pub type FileMap = Map<Seq<char>, Seq<u8>>;

/// The files after undoing `undo` in order, as the caller carries out a rollback: remove
/// the final, then, where it has a backup that exists, rename the backup to it.
pub open spec fn undo_fs(fs: FileMap, undo: Seq<(Seq<char>, Option<Seq<char>>)>) -> FileMap
    decreases undo.len(),
{
    if undo.len() == 0 {
        fs
    } else {
        let f = undo[0].0;
        let fs1 = fs.remove(f);
        let fs2 = match undo[0].1 {
            Some(b) => if fs1.dom().contains(b) {
                fs1.remove(b).insert(f, fs1[b])
            } else {
                fs1
            },
            None => fs1,
        };
        undo_fs(fs2, undo.subrange(1, undo.len() as int))
    }
}

/// The touched finals are distinct, their backups are distinct and none is a final.
pub open spec fn touched_apart(t: Seq<(Seq<char>, Option<Seq<char>>)>) -> bool {
    &&& forall|i: int, j: int| 0 <= i < j < t.len() ==> (#[trigger] t[i]).0 != (#[trigger] t[j]).0
    &&& forall|i: int, j: int|
        0 <= i < t.len() && 0 <= j < t.len() ==> ((#[trigger] t[i]).1 matches Some(b) ==> b != (#[trigger] t[j]).0)
    &&& forall|i: int, j: int|
        0 <= i < j < t.len() ==> ((#[trigger] t[i]).1 matches Some(b) ==> ((#[trigger] t[j]).1 matches Some(c) ==> b != c))
}

/// Where the publish stands before a rollback: each touched final that had a backup existed
/// before and its backup holds its old bytes; each touched final without one did not exist.
pub open spec fn backups_hold(t: Seq<(Seq<char>, Option<Seq<char>>)>, before: FileMap, now: FileMap) -> bool {
    forall|i: int|
        0 <= i < t.len() ==> match (#[trigger] t[i]).1 {
            Some(b) => before.dom().contains(t[i].0) && now.dom().contains(b) && now[b] == before[t[i].0],
            None => !before.dom().contains(t[i].0),
        }
}

proof fn lemma_undo_keeps(fs: FileMap, u: Seq<(Seq<char>, Option<Seq<char>>)>, key: Seq<char>)
    requires
        forall|j: int| 0 <= j < u.len() ==> (#[trigger] u[j]).0 != key && u[j].1 != Some(key),
    ensures
        undo_fs(fs, u).dom().contains(key) == fs.dom().contains(key),
        fs.dom().contains(key) ==> undo_fs(fs, u)[key] == fs[key],
    decreases u.len(),
{
    if u.len() > 0 {
        let f = u[0].0;
        let fs1 = fs.remove(f);
        let fs2 = match u[0].1 {
            Some(b) => if fs1.dom().contains(b) { fs1.remove(b).insert(f, fs1[b]) } else { fs1 },
            None => fs1,
        };
        let rest = u.subrange(1, u.len() as int);
        assert forall|j: int| 0 <= j < rest.len() implies (#[trigger] rest[j]).0 != key && rest[j].1 != Some(key) by {
            assert(rest[j] == u[j + 1]);
        }
        lemma_undo_keeps(fs2, rest, key);
    }
}

proof fn lemma_undo_restores(u: Seq<(Seq<char>, Option<Seq<char>>)>, before: FileMap, now: FileMap)
    requires
        touched_apart(u),
        backups_hold(u, before, now),
    ensures
        forall|i: int|
            0 <= i < u.len() ==> (undo_fs(now, u).dom().contains((#[trigger] u[i]).0) == before.dom().contains(u[i].0)
                && (before.dom().contains(u[i].0) ==> undo_fs(now, u)[u[i].0] == before[u[i].0])),
    decreases u.len(),
{
    if u.len() > 0 {
        let f = u[0].0;
        let fs1 = now.remove(f);
        let fs2 = match u[0].1 {
            Some(b) => if fs1.dom().contains(b) { fs1.remove(b).insert(f, fs1[b]) } else { fs1 },
            None => fs1,
        };
        let rest = u.subrange(1, u.len() as int);
        assert(undo_fs(now, u) == undo_fs(fs2, rest));
        assert forall|i: int, j: int| 0 <= i < j < rest.len() implies (#[trigger] rest[i]).0 != (#[trigger] rest[j]).0 by {
            assert(rest[i] == u[i + 1] && rest[j] == u[j + 1]);
        }
        assert forall|i: int, j: int| 0 <= i < rest.len() && 0 <= j < rest.len() implies ((#[trigger] rest[i]).1 matches Some(b) ==> b != (#[trigger] rest[j]).0) by {
            assert(rest[i] == u[i + 1] && rest[j] == u[j + 1]);
        }
        assert forall|i: int, j: int| 0 <= i < j < rest.len() implies ((#[trigger] rest[i]).1 matches Some(b) ==> ((#[trigger] rest[j]).1 matches Some(c) ==> b != c)) by {
            assert(rest[i] == u[i + 1] && rest[j] == u[j + 1]);
        }
        assert forall|i: int| 0 <= i < rest.len() implies match (#[trigger] rest[i]).1 {
            Some(b) => before.dom().contains(rest[i].0) && fs2.dom().contains(b) && fs2[b] == before[rest[i].0],
            None => !before.dom().contains(rest[i].0),
        } by {
            assert(rest[i] == u[i + 1]);
            assert(u[i + 1].0 != f);
            match u[i + 1].1 {
                Some(b) => {
                    assert(b != f);
                    if let Some(b0) = u[0].1 {
                        assert(b != b0);
                    }
                },
                None => {},
            }
        }
        lemma_undo_restores(rest, before, fs2);
        assert forall|j: int| 0 <= j < rest.len() implies (#[trigger] rest[j]).0 != f && rest[j].1 != Some(f) by {
            assert(rest[j] == u[j + 1]);
            assert(u[j + 1].0 != f);
        }
        lemma_undo_keeps(fs2, rest, f);
        assert forall|i: int|
            0 <= i < u.len() implies (undo_fs(now, u).dom().contains((#[trigger] u[i]).0) == before.dom().contains(u[i].0)
                && (before.dom().contains(u[i].0) ==> undo_fs(now, u)[u[i].0] == before[u[i].0])) by {
            if i > 0 {
                assert(rest[i - 1] == u[i]);
            }
        }
    }
}

/// A failed publish leaves the previous snapshot intact: when the touched finals are apart
/// and each backup still holds its final's old bytes, undoing them latest first, as a
/// rollback lists them, gives every touched final its bytes from before the publish, and
/// leaves absent each one that was absent.
pub proof fn lemma_rollback_restores_snapshot(t: Seq<(Seq<char>, Option<Seq<char>>)>, before: FileMap, now: FileMap)
    requires
        touched_apart(t),
        backups_hold(t, before, now),
    ensures
        forall|i: int|
            0 <= i < t.len() ==> (undo_fs(now, t.reverse()).dom().contains((#[trigger] t[i]).0) == before.dom().contains(t[i].0)
                && (before.dom().contains(t[i].0) ==> undo_fs(now, t.reverse())[t[i].0] == before[t[i].0])),
{
    let u = t.reverse();
    assert forall|i: int, j: int| 0 <= i < j < u.len() implies (#[trigger] u[i]).0 != (#[trigger] u[j]).0 by {
        assert(u[i] == t[t.len() - 1 - i] && u[j] == t[t.len() - 1 - j]);
    }
    assert forall|i: int, j: int| 0 <= i < u.len() && 0 <= j < u.len() implies ((#[trigger] u[i]).1 matches Some(b) ==> b != (#[trigger] u[j]).0) by {
        assert(u[i] == t[t.len() - 1 - i] && u[j] == t[t.len() - 1 - j]);
    }
    assert forall|i: int, j: int| 0 <= i < j < u.len() implies ((#[trigger] u[i]).1 matches Some(b) ==> ((#[trigger] u[j]).1 matches Some(c) ==> b != c)) by {
        assert(u[i] == t[t.len() - 1 - i] && u[j] == t[t.len() - 1 - j]);
    }
    assert forall|i: int| 0 <= i < u.len() implies match (#[trigger] u[i]).1 {
        Some(b) => before.dom().contains(u[i].0) && now.dom().contains(b) && now[b] == before[u[i].0],
        None => !before.dom().contains(u[i].0),
    } by {
        assert(u[i] == t[t.len() - 1 - i]);
    }
    lemma_undo_restores(u, before, now);
    assert forall|i: int|
        0 <= i < t.len() implies (undo_fs(now, u).dom().contains((#[trigger] t[i]).0) == before.dom().contains(t[i].0)
            && (before.dom().contains(t[i].0) ==> undo_fs(now, u)[t[i].0] == before[t[i].0])) by {
        assert(u[t.len() - 1 - i] == t[i]);
    }
}

} // verus!
