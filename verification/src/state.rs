//! The canonical application state, the deltas that mutate it, and the store
//! that applies each delta and keeps the ordered log of everything applied —
//! the log models the broadcast: an observer subscribed at position `k`
//! receives exactly the deltas logged after `k`, in order.

use vstd::prelude::*;

verus! {

/// Reserved configuration slot; carries nothing today.
#[derive(Clone, Copy)]
pub struct Config {}

/// Reserved asset slot; carries nothing today.
#[derive(Clone, Copy)]
pub struct Assets {}

/// Reserved cache slot; carries nothing today.
#[derive(Clone, Copy)]
pub struct Cache {}

/// One file, identified by its path.
pub struct File {
    pub path: String,
}

impl View for File {
    type V = Seq<char>;

    open spec fn view(&self) -> Seq<char> {
        self.path@
    }
}

impl DeepView for File {
    type V = Seq<char>;

    open spec fn deep_view(&self) -> Seq<char> {
        self.path@
    }
}

/// The opened file and the sibling files discovered beside it, in discovery
/// order.
pub struct Files {
    pub opened: Option<File>,
    pub folder: Vec<File>,
}

#[verifier::ext_equal]
pub ghost struct FilesV {
    pub opened: Option<Seq<char>>,
    pub folder: Seq<Seq<char>>,
}

impl View for Files {
    type V = FilesV;

    open spec fn view(&self) -> FilesV {
        FilesV { opened: self.opened.deep_view(), folder: self.folder.deep_view() }
    }
}

/// The root state value: launch arguments, the file set, and the reserved
/// slots.
pub struct AppState {
    pub config: Option<Config>,
    pub assets: Option<Assets>,
    pub cache: Option<Cache>,
    pub files: Files,
    pub args: Vec<String>,
}

#[verifier::ext_equal]
pub ghost struct StateV {
    pub config: Option<Config>,
    pub assets: Option<Assets>,
    pub cache: Option<Cache>,
    pub files: FilesV,
    pub args: Seq<Seq<char>>,
}

impl View for AppState {
    type V = StateV;

    open spec fn view(&self) -> StateV {
        StateV {
            config: self.config,
            assets: self.assets,
            cache: self.cache,
            files: self.files@,
            args: self.args.deep_view(),
        }
    }
}

/// One atomic mutation of the state; the only way the state ever changes.
pub enum StateUpdate {
    SetArgs(Vec<String>),
    SetOpened(File),
    ExtendFiles(Vec<File>),
}

#[verifier::ext_equal]
pub ghost enum UpdateV {
    SetArgs(Seq<Seq<char>>),
    SetOpened(Seq<char>),
    ExtendFiles(Seq<Seq<char>>),
}

impl View for StateUpdate {
    type V = UpdateV;

    open spec fn view(&self) -> UpdateV {
        match self {
            StateUpdate::SetArgs(args) => UpdateV::SetArgs(args.deep_view()),
            StateUpdate::SetOpened(file) => UpdateV::SetOpened(file.deep_view()),
            StateUpdate::ExtendFiles(files) => UpdateV::ExtendFiles(files.deep_view()),
        }
    }
}

impl DeepView for StateUpdate {
    type V = UpdateV;

    open spec fn deep_view(&self) -> UpdateV {
        self.view()
    }
}

/// The state a process starts from: nothing opened, nothing scanned, no
/// arguments recorded.
pub open spec fn empty_state() -> StateV {
    StateV {
        config: None,
        assets: None,
        cache: None,
        files: FilesV { opened: None, folder: Seq::empty() },
        args: Seq::empty(),
    }
}

/// What one delta does to a state value: `SetArgs` replaces the argument
/// list, `SetOpened` replaces the opened file (last write wins), and
/// `ExtendFiles` appends a batch to the sibling list, touching nothing else.
pub open spec fn apply_update(s: StateV, u: UpdateV) -> StateV {
    match u {
        UpdateV::SetArgs(args) => StateV { args: args, ..s },
        UpdateV::SetOpened(path) => StateV {
            files: FilesV { opened: Some(path), ..s.files },
            ..s
        },
        UpdateV::ExtendFiles(paths) => StateV {
            files: FilesV { folder: s.files.folder + paths, ..s.files },
            ..s
        },
    }
}

/// The ordered application of a whole delta sequence.
pub open spec fn fold_updates(s: StateV, us: Seq<UpdateV>) -> StateV
    decreases us.len(),
{
    if us.len() == 0 {
        s
    } else {
        apply_update(fold_updates(s, us.drop_last()), us.last())
    }
}

impl AppState {
    /// The empty initial state.
    pub fn new() -> (s: AppState)
        ensures
            s@ == empty_state(),
    {
        let s = AppState {
            config: None,
            assets: None,
            cache: None,
            files: Files { opened: None, folder: Vec::new() },
            args: Vec::new(),
        };
        proof {
            assert(s@ =~= empty_state());
        }
        s
    }

    /// Replace the recorded launch arguments; everything else is untouched.
    pub fn set_args(&mut self, args: Vec<String>)
        ensures
            final(self)@ == (StateV { args: args.deep_view(), ..old(self)@ }),
    {
        self.args = args;
        proof {
            assert(final(self)@ =~= (StateV { args: self.args.deep_view(), ..old(self)@ }));
        }
    }

    /// Append a batch of files to the sibling list; existing entries keep
    /// their positions, everything else is untouched.
    pub fn extend_files(&mut self, files: Vec<File>)
        ensures
            final(self)@ == (StateV {
                files: (FilesV {
                    folder: old(self)@.files.folder + files.deep_view(),
                    ..old(self)@.files
                }),
                ..old(self)@
            }),
    {
        let ghost incoming = files.deep_view();
        let mut files = files;
        self.files.folder.append(&mut files);
        proof {
            assert(self.files.folder.deep_view() =~= old(self)@.files.folder + incoming);
            assert(final(self)@ =~= (StateV {
                files: (FilesV {
                    folder: old(self)@.files.folder + incoming,
                    ..old(self)@.files
                }),
                ..old(self)@
            }));
        }
    }

    /// Apply one delta to this value, per `apply_update`.
    pub fn update(&mut self, update: StateUpdate)
        ensures
            final(self)@ == apply_update(old(self)@, update@),
    {
        match update {
            StateUpdate::SetArgs(args) => {
                self.set_args(args);
            },
            StateUpdate::SetOpened(opened) => {
                self.files.opened = Some(opened);
                proof {
                    assert(final(self)@ =~= apply_update(old(self)@, update@));
                }
            },
            StateUpdate::ExtendFiles(files) => {
                self.extend_files(files);
                proof {
                    assert(final(self)@ =~= apply_update(old(self)@, update@));
                }
            },
        }
    }
}

impl Default for AppState {
    /// Same empty value as `AppState::new`.
    fn default() -> (s: AppState)
        ensures
            s@ == empty_state(),
    {
        AppState::new()
    }
}

pub(crate) proof fn lemma_deep_view_push<T: DeepView>(prev: Vec<T>, cur: Vec<T>, x: T)
    requires
        cur@ == prev@.push(x),
    ensures
        cur.deep_view() == prev.deep_view().push(x.deep_view()),
{
    assert forall|j: int|
        0 <= j < cur@.len() implies cur.deep_view()[j] == prev.deep_view().push(
        x.deep_view(),
    )[j] by {
        assert(cur.deep_view()[j] == cur@[j].deep_view());
        if j < prev@.len() {
            assert(cur@[j] == prev@[j]);
            assert(prev.deep_view()[j] == prev@[j].deep_view());
        } else {
            assert(cur@[j] == x);
        }
    }
    assert(cur.deep_view() =~= prev.deep_view().push(x.deep_view()));
}

fn clone_string_vec(v: &Vec<String>) -> (r: Vec<String>)
    ensures
        r.deep_view() == v.deep_view(),
{
    let mut r: Vec<String> = Vec::new();
    let mut i: usize = 0;
    while i < v.len()
        invariant
            i <= v.len(),
            r.deep_view() == v.deep_view().take(i as int),
        decreases v.len() - i,
    {
        let x = v[i].clone();
        let ghost gx = x;
        let ghost prev = r;
        r.push(x);
        proof {
            lemma_deep_view_push(prev, r, gx);
            assert(gx.deep_view() == v.deep_view()[i as int]);
            assert(v.deep_view().take(i as int + 1) =~= v.deep_view().take(i as int).push(
                v.deep_view()[i as int],
            ));
        }
        i = i + 1;
    }
    proof {
        assert(v.deep_view().take(v@.len() as int) =~= v.deep_view());
    }
    r
}

fn clone_file(f: &File) -> (r: File)
    ensures
        r@ == f@,
{
    File { path: f.path.clone() }
}

fn clone_file_vec(v: &Vec<File>) -> (r: Vec<File>)
    ensures
        r.deep_view() == v.deep_view(),
{
    let mut r: Vec<File> = Vec::new();
    let mut i: usize = 0;
    while i < v.len()
        invariant
            i <= v.len(),
            r.deep_view() == v.deep_view().take(i as int),
        decreases v.len() - i,
    {
        let x = clone_file(&v[i]);
        let ghost gx = x;
        let ghost prev = r;
        r.push(x);
        proof {
            lemma_deep_view_push(prev, r, gx);
            assert(gx.deep_view() == v.deep_view()[i as int]);
            assert(v.deep_view().take(i as int + 1) =~= v.deep_view().take(i as int).push(
                v.deep_view()[i as int],
            ));
        }
        i = i + 1;
    }
    proof {
        assert(v.deep_view().take(v@.len() as int) =~= v.deep_view());
    }
    r
}

fn clone_update(u: &StateUpdate) -> (r: StateUpdate)
    ensures
        r@ == u@,
{
    match u {
        StateUpdate::SetArgs(args) => StateUpdate::SetArgs(clone_string_vec(args)),
        StateUpdate::SetOpened(file) => StateUpdate::SetOpened(clone_file(file)),
        StateUpdate::ExtendFiles(files) => StateUpdate::ExtendFiles(clone_file_vec(files)),
    }
}

/// The process-wide state container: the canonical value plus the ordered
/// log of every delta applied to it. The log is what observers read from;
/// its order is the one total order of mutations.
pub struct StateStore {
    state: AppState,
    log: Vec<StateUpdate>,
}

impl View for StateStore {
    type V = StateV;

    closed spec fn view(&self) -> StateV {
        self.state@
    }
}

impl StateStore {
    /// The deltas applied so far, in application order.
    pub closed spec fn log(&self) -> Seq<UpdateV> {
        self.log.deep_view()
    }

    /// Replay equivalence: the canonical value is exactly the fold of the
    /// logged deltas over the empty initial state.
    pub open spec fn wf(&self) -> bool {
        self@ == fold_updates(empty_state(), self.log())
    }

    /// A store holding the empty state and an empty log.
    pub fn new() -> (s: StateStore)
        ensures
            s.wf(),
            s@ == empty_state(),
            s.log() == Seq::<UpdateV>::empty(),
    {
        let s = StateStore { state: AppState::new(), log: Vec::new() };
        proof {
            assert(s.log() =~= Seq::<UpdateV>::empty());
        }
        s
    }

    /// The single mutation entry point: mutate the canonical value per the
    /// delta, and append the same delta to the log, atomically from any
    /// caller's point of view.
    pub fn apply(&mut self, update: StateUpdate)
        requires
            old(self).wf(),
        ensures
            final(self).wf(),
            final(self).log() == old(self).log().push(update@),
            final(self)@ == apply_update(old(self)@, update@),
    {
        let applied = clone_update(&update);
        self.state.update(applied);
        self.log.push(update);
        proof {
            assert(final(self).log() =~= old(self).log().push(update@));
            assert(final(self).log().drop_last() =~= old(self).log());
        }
    }

    /// An independent copy of the current canonical value.
    pub fn snapshot(&self) -> (r: AppState)
        requires
            self.wf(),
        ensures
            r@ == self@,
            r@ == fold_updates(empty_state(), self.log()),
    {
        let opened = match &self.state.files.opened {
            Some(f) => Some(clone_file(f)),
            None => None,
        };
        let r = AppState {
            config: self.state.config,
            assets: self.state.assets,
            cache: self.state.cache,
            files: Files { opened, folder: clone_file_vec(&self.state.files.folder) },
            args: clone_string_vec(&self.state.args),
        };
        proof {
            assert(r@ =~= self@);
        }
        r
    }

    /// Register an observer. It sees only deltas applied after this point.
    pub fn subscribe(&self) -> (o: Observer)
        ensures
            o.position == self.log().len(),
    {
        let o = Observer { position: self.log.len() };
        proof {
            assert(self.log().len() == self.log@.len());
        }
        o
    }
}

/// One subscriber to the delta stream: a cursor into the store's log. The
/// deltas it receives are exactly those logged after it subscribed, in log
/// order — never an earlier one, never a gap.
pub struct Observer {
    pub position: usize,
}

impl Observer {
    /// Every delta applied since this observer last looked, in application
    /// order; the cursor moves to the end of the log.
    pub fn pending(&mut self, store: &StateStore) -> (r: Vec<StateUpdate>)
        requires
            old(self).position <= store.log().len(),
        ensures
            final(self).position == store.log().len(),
            r.deep_view() == store.log().skip(old(self).position as int),
    {
        let mut r: Vec<StateUpdate> = Vec::new();
        let from: usize = self.position;
        let mut i: usize = from;
        while i < store.log.len()
            invariant
                from <= i <= store.log.len(),
                from <= store.log@.len(),
                r.deep_view() == store.log().subrange(from as int, i as int),
            decreases store.log.len() - i,
        {
            let x = clone_update(&store.log[i]);
            let ghost gx = x;
            let ghost prev = r;
            r.push(x);
            proof {
                lemma_deep_view_push(prev, r, gx);
                assert(gx.deep_view() == store.log()[i as int]);
                assert(store.log().subrange(from as int, i as int + 1) =~= store.log().subrange(
                    from as int,
                    i as int,
                ).push(store.log()[i as int]));
            }
            i = i + 1;
        }
        self.position = store.log.len();
        proof {
            assert(r.deep_view() =~= store.log().skip(from as int));
        }
        r
    }
}

/// Folding a concatenation of delta sequences is folding one after the
/// other: the log can be replayed in any number of sittings.
pub proof fn lemma_fold_concat(s: StateV, a: Seq<UpdateV>, b: Seq<UpdateV>)
    ensures
        fold_updates(s, a + b) == fold_updates(fold_updates(s, a), b),
    decreases b.len(),
{
    if b.len() == 0 {
        assert(a + b =~= a);
    } else {
        lemma_fold_concat(s, a, b.drop_last());
        assert((a + b).drop_last() =~= a + b.drop_last());
        assert((a + b).last() == b.last());
    }
}

/// The client protocol "snapshot, then fold every delta received after
/// subscribing" reconstructs the canonical state: a snapshot taken at log
/// position `k`, extended by the deltas logged from `k` on, equals the fold
/// of the whole log.
pub proof fn lemma_snapshot_then_replay(log: Seq<UpdateV>, k: int)
    requires
        0 <= k <= log.len(),
    ensures
        fold_updates(empty_state(), log) == fold_updates(
            fold_updates(empty_state(), log.take(k)),
            log.skip(k),
        ),
{
    assert(log.take(k) + log.skip(k) =~= log);
    lemma_fold_concat(empty_state(), log.take(k), log.skip(k));
}

/// The sibling list is append-only and stable: whatever deltas are applied,
/// a file that stands at position `i` stays at position `i`.
pub proof fn lemma_siblings_append_only(s: StateV, us: Seq<UpdateV>)
    ensures
        s.files.folder.is_prefix_of(fold_updates(s, us).files.folder),
    decreases us.len(),
{
    let pre = s.files.folder;
    if us.len() == 0 {
        assert(pre =~= fold_updates(s, us).files.folder.subrange(0, pre.len() as int));
    } else {
        lemma_siblings_append_only(s, us.drop_last());
        let mid = fold_updates(s, us.drop_last()).files.folder;
        let fin = fold_updates(s, us).files.folder;
        assert(mid.is_prefix_of(fin)) by {
            assert(mid =~= fin.subrange(0, mid.len() as int));
        }
        assert(pre =~= fin.subrange(0, pre.len() as int));
    }
}

/// Two appended batches land in order: after `ExtendFiles(x)` then
/// `ExtendFiles(y)`, the sibling list is the old list, then all of `x`, then
/// all of `y` — never reordered.
pub proof fn lemma_batches_in_order(s: StateV, x: Seq<Seq<char>>, y: Seq<Seq<char>>)
    ensures
        fold_updates(
            s,
            seq![UpdateV::ExtendFiles(x), UpdateV::ExtendFiles(y)],
        ).files.folder == s.files.folder + x + y,
{
    let one = seq![UpdateV::ExtendFiles(x)];
    let us = seq![UpdateV::ExtendFiles(x), UpdateV::ExtendFiles(y)];
    assert(one.drop_last() =~= Seq::<UpdateV>::empty());
    assert(fold_updates(s, Seq::<UpdateV>::empty()) == s);
    assert(one.last() == UpdateV::ExtendFiles(x));
    assert(fold_updates(s, one) == apply_update(s, UpdateV::ExtendFiles(x)));
    assert(us.drop_last() =~= one);
    assert(us.last() == UpdateV::ExtendFiles(y));
    assert(fold_updates(s, us) == apply_update(
        apply_update(s, UpdateV::ExtendFiles(x)),
        UpdateV::ExtendFiles(y),
    ));
    assert(s.files.folder + x + y =~= (s.files.folder + x) + y);
}

/// Observer isolation: the suffix of the log from the subscription point
/// holds exactly the deltas applied after it — each one, in application
/// order, with no gap and nothing from before.
pub proof fn lemma_observer_isolation(log: Seq<UpdateV>, k: int)
    requires
        0 <= k <= log.len(),
    ensures
        log.skip(k).len() == log.len() - k,
        forall|j: int| 0 <= j < log.len() - k ==> log.skip(k)[j] == log[k + j],
{
}

} // verus!
