//! Which files of a watched directory are uploaded, and when.
//!
//! A file that changes is uploaded once it has stopped changing for a quiet
//! period. While an upload of a file is under way no second one is started
//! for it. An upload that fails is tried again after a delay that doubles
//! with each failure, a limited number of times.
//!
//! Nothing here waits or looks at the clock. The loop around it reports
//! what happened and when, and is told what to upload.

use vstd::prelude::*;

verus! {

/// How long to wait and how often to try.
#[derive(Debug, Clone, Copy, PartialEq, Eq, Structural)]
pub struct WatchConfig {
    /// For how many milliseconds a file must not have changed before it is
    /// uploaded.
    pub quiet: u64,
    /// How often the upload of a file is tried before it is given up.
    pub max_attempts: u32,
    /// The delay in milliseconds before the second attempt. Each further
    /// attempt waits twice as long as the one before.
    pub backoff: u64,
}

impl Default for WatchConfig {
    /// Half a second of quiet, and five attempts of which the second
    /// follows after one second.
    fn default() -> (cfg: WatchConfig)
        ensures
            cfg == (WatchConfig { quiet: 500, max_attempts: 5, backoff: 1000 }),
    {
        WatchConfig { quiet: 500, max_attempts: 5, backoff: 1000 }
    }
}

/// What a watched file is waiting for.
#[derive(Debug, Clone, Copy, PartialEq, Eq, Structural)]
pub enum Phase {
    /// The file has changed and may change again.
    Settling,
    /// An upload of the file is under way.
    Uploading,
    /// An upload of the file has failed and the next one is to come.
    Waiting,
}

/// The state of a watched file.
#[derive(Debug, Clone, Copy, PartialEq, Eq, Structural)]
pub struct FileState {
    pub phase: Phase,
    /// When the file is to be uploaded, unless it changes before. For a
    /// file whose upload is under way: when it is to be uploaded again, if
    /// it has changed meanwhile.
    pub due: u64,
    /// How many uploads of the file have failed in a row.
    pub attempts: u32,
    /// Whether the file has changed since its upload began.
    pub changed: bool,
}

/// What the end of an upload means for the file.
#[derive(Debug, Clone, Copy, PartialEq, Eq, Structural)]
pub enum Outcome {
    /// The file is uploaded and no longer tracked.
    Done,
    /// The file has changed during the upload and is uploaded again once
    /// it has settled.
    Again,
    /// The upload has failed and is tried again at the given time.
    Retry { at: u64 },
    /// The upload has failed too often. The file is no longer tracked.
    GivenUp,
    /// No upload of this file was under way.
    Ignored,
}

/// The time `delay` milliseconds after `now`, and the end of time where
/// that is beyond it.
pub open spec fn later(now: u64, delay: u64) -> u64 {
    if now + delay > u64::MAX {
        u64::MAX
    } else {
        (now + delay) as u64
    }
}

/// The delay before the attempt that follows `failures` failed ones: the
/// configured delay after the first failure, and twice the delay before
/// with each further one.
pub open spec fn retry_delay(backoff: u64, failures: nat) -> u64
    decreases failures,
{
    if failures <= 1 {
        backoff
    } else {
        later(retry_delay(backoff, (failures - 1) as nat), retry_delay(backoff, (failures - 1) as nat))
    }
}

impl FileState {
    /// The state of a file that has changed at the time `now` and was not
    /// tracked before.
    pub open spec fn fresh(now: u64, quiet: u64) -> FileState {
        FileState { phase: Phase::Settling, due: later(now, quiet), attempts: 0, changed: false }
    }

    /// The state after the file has changed at the time `now`. The quiet
    /// period begins anew. An upload that is under way goes on.
    pub open spec fn touched(self, now: u64, quiet: u64) -> FileState {
        if self.phase is Uploading {
            FileState { due: later(now, quiet), changed: true, ..self }
        } else {
            Self::fresh(now, quiet)
        }
    }

    /// Whether an upload of the file is to begin at the time `now`.
    pub open spec fn is_due(self, now: u64) -> bool {
        !(self.phase is Uploading) && self.due <= now
    }

    /// The state after the files that are due at the time `now` have been
    /// handed out for upload.
    pub open spec fn dispatched(self, now: u64) -> FileState {
        if self.is_due(now) {
            FileState { phase: Phase::Uploading, changed: false, ..self }
        } else {
            self
        }
    }

    /// What the end of an upload at the time `now` means for a file in
    /// this state.
    pub open spec fn outcome(self, success: bool, now: u64, cfg: WatchConfig) -> Outcome {
        if !(self.phase is Uploading) {
            Outcome::Ignored
        } else if self.changed {
            Outcome::Again
        } else if success {
            Outcome::Done
        } else if self.attempts + 1 >= cfg.max_attempts {
            Outcome::GivenUp
        } else {
            Outcome::Retry {
                at: later(now, retry_delay(cfg.backoff, (self.attempts + 1) as nat)),
            }
        }
    }

    /// The state after the end of an upload at the time `now`, for a file
    /// that stays tracked.
    pub open spec fn finished(self, success: bool, now: u64, cfg: WatchConfig) -> FileState {
        match self.outcome(success, now, cfg) {
            Outcome::Again => FileState {
                phase: Phase::Settling,
                due: self.due,
                attempts: 0,
                changed: false,
            },
            Outcome::Retry { at } => FileState {
                phase: Phase::Waiting,
                due: at,
                attempts: (self.attempts + 1) as u32,
                changed: false,
            },
            _ => self,
        }
    }
}

impl Outcome {
    /// Whether the file is no longer tracked.
    pub open spec fn forgets(self) -> bool {
        self is Done || self is GivenUp
    }
}

/// A watched file.
pub struct WatchedFile {
    pub path: Seq<char>,
    pub state: FileState,
}

/// Where in `files` the file `path` is.
pub open spec fn position(files: Seq<WatchedFile>, path: Seq<char>) -> Option<int> {
    if exists|i: int| 0 <= i < files.len() && files[i].path == path {
        Some(choose|i: int| 0 <= i < files.len() && files[i].path == path)
    } else {
        None
    }
}

/// No file is tracked twice.
pub open spec fn distinct(files: Seq<WatchedFile>) -> bool {
    forall|i: int, j: int| 0 <= i < j < files.len() ==> files[i].path != files[j].path
}

/// The files after `path` has changed at the time `now`.
pub open spec fn after_change(
    files: Seq<WatchedFile>,
    path: Seq<char>,
    now: u64,
    quiet: u64,
) -> Seq<WatchedFile> {
    match position(files, path) {
        Some(i) => files.update(
            i,
            WatchedFile { path, state: files[i].state.touched(now, quiet) },
        ),
        None => files.push(WatchedFile { path, state: FileState::fresh(now, quiet) }),
    }
}

/// The files whose upload is to begin at the time `now`, in the order in
/// which they came to be tracked.
pub open spec fn due_paths(files: Seq<WatchedFile>, now: u64) -> Seq<Seq<char>> {
    files.filter(|file: WatchedFile| file.state.is_due(now)).map_values(
        |file: WatchedFile| file.path,
    )
}

/// The files after those that are due at the time `now` have been handed
/// out for upload.
pub open spec fn after_dispatch(files: Seq<WatchedFile>, now: u64) -> Seq<WatchedFile> {
    files.map_values(
        |file: WatchedFile| WatchedFile { path: file.path, state: file.state.dispatched(now) },
    )
}

/// What the end of an upload of `path` at the time `now` means.
pub open spec fn outcome_of(
    files: Seq<WatchedFile>,
    path: Seq<char>,
    success: bool,
    now: u64,
    cfg: WatchConfig,
) -> Outcome {
    match position(files, path) {
        Some(i) => files[i].state.outcome(success, now, cfg),
        None => Outcome::Ignored,
    }
}

/// The files after the end of an upload of `path` at the time `now`.
pub open spec fn after_upload(
    files: Seq<WatchedFile>,
    path: Seq<char>,
    success: bool,
    now: u64,
    cfg: WatchConfig,
) -> Seq<WatchedFile> {
    match position(files, path) {
        Some(i) => if files[i].state.outcome(success, now, cfg).forgets() {
            files.remove(i)
        } else {
            files.update(
                i,
                WatchedFile { path, state: files[i].state.finished(success, now, cfg) },
            )
        },
        None => files,
    }
}

/// Among distinct files, the file at a place is found there.
pub proof fn lemma_position_at(files: Seq<WatchedFile>, i: int)
    requires
        distinct(files),
        0 <= i < files.len(),
    ensures
        position(files, files[i].path) == Some(i),
{
}

/// A file that is found is at the place where it is found.
pub proof fn lemma_position_found(files: Seq<WatchedFile>, path: Seq<char>)
    requires
        position(files, path) is Some,
    ensures
        0 <= position(files, path)->0 < files.len(),
        files[position(files, path)->0].path == path,
{
}

struct Entry {
    path: String,
    state: FileState,
}

/// The files of a watched directory that have changed and are not
/// uploaded yet.
pub struct Watcher {
    cfg: WatchConfig,
    files: Vec<Entry>,
}

impl View for Watcher {
    type V = Seq<WatchedFile>;

    /// The tracked files, in the order in which they came to be tracked.
    closed spec fn view(&self) -> Seq<WatchedFile> {
        Self::model(self.files@)
    }
}

impl Watcher {
    spec fn model(files: Seq<Entry>) -> Seq<WatchedFile> {
        Seq::new(files.len(), |i: int| WatchedFile { path: files[i].path@, state: files[i].state })
    }

    #[verifier::type_invariant]
    spec fn inv(&self) -> bool {
        distinct(Self::model(self.files@))
    }

    /// How long this watcher waits and how often it tries.
    pub closed spec fn config(&self) -> WatchConfig {
        self.cfg
    }

    /// A watcher that tracks no file yet.
    pub fn new(cfg: WatchConfig) -> (watcher: Watcher)
        ensures
            watcher@ == Seq::<WatchedFile>::empty(),
            watcher.config() == cfg,
            distinct(watcher@),
    {
        let watcher = Watcher { cfg, files: Vec::new() };
        assert(watcher@ =~= Seq::<WatchedFile>::empty());
        watcher
    }

    fn find(&self, path: &String) -> (r: Option<usize>)
        ensures
            match r {
                Some(i) => i < self.files@.len() && position(self@, path@) == Some(i as int),
                None => position(self@, path@) is None,
            },
    {
        let mut i: usize = 0;
        while i < self.files.len()
            invariant
                i <= self.files@.len(),
                forall|j: int| 0 <= j < i ==> self@[j].path != path@,
            decreases self.files@.len() - i,
        {
            if self.files[i].path == *path {
                proof {
                    use_type_invariant(self);
                    lemma_position_at(self@, i as int);
                }
                return Some(i);
            }
            i = i + 1;
        }
        None
    }

    /// Returns the state of the file `path`, if it is tracked.
    pub fn state_of(&self, path: &str) -> (state: Option<FileState>)
        ensures
            state == match position(self@, path@) {
                Some(i) => Some(self@[i].state),
                None => None,
            },
    {
        let key = path.to_owned();
        match self.find(&key) {
            Some(i) => Some(self.files[i].state),
            None => None,
        }
    }

    /// Takes note that the file `path` has changed at the time `now`. The
    /// file's quiet period begins anew. A file that was not tracked is
    /// tracked from now on.
    pub fn changed(&mut self, path: &str, now: u64)
        ensures
            final(self)@ == after_change(old(self)@, path@, now, old(self).config().quiet),
            final(self).config() == old(self).config(),
            distinct(old(self)@) && distinct(final(self)@),
    {
        proof {
            use_type_invariant(&*self);
        }
        let key = path.to_owned();
        let due = now.saturating_add(self.cfg.quiet);
        let found = self.find(&key);
        let mut files: Vec<Entry> = Vec::new();
        std::mem::swap(&mut self.files, &mut files);
        assert(self.files@.len() == 0);
        match found {
            Some(i) => {
                if let Phase::Uploading = files[i].state.phase {
                    files[i].state.due = due;
                    files[i].state.changed = true;
                } else {
                    files[i].state = FileState {
                        phase: Phase::Settling,
                        due,
                        attempts: 0,
                        changed: false,
                    };
                }
                proof {
                    lemma_position_found(old(self)@, path@);
                }
            },
            None => {
                files.push(
                    Entry {
                        path: key,
                        state: FileState { phase: Phase::Settling, due, attempts: 0, changed: false },
                    },
                );
            },
        }
        proof {
            assert(Self::model(files@) =~= after_change(
                old(self)@,
                path@,
                now,
                old(self).config().quiet,
            ));
            lemma_change_keeps_distinct(old(self)@, path@, now, old(self).config().quiet);
        }
        self.files = files;
    }

    /// Hands out the files whose upload is to begin at the time `now`:
    /// those that have been quiet for long enough, and those whose next
    /// attempt has come. Their uploads count as under way from now on, so
    /// none of them is handed out again before its upload has ended.
    pub fn dispatch(&mut self, now: u64) -> (due: Vec<String>)
        ensures
            due.deep_view() == due_paths(old(self)@, now),
            final(self)@ == after_dispatch(old(self)@, now),
            final(self).config() == old(self).config(),
            distinct(old(self)@) && distinct(final(self)@),
    {
        proof {
            use_type_invariant(&*self);
        }
        let mut files: Vec<Entry> = Vec::new();
        std::mem::swap(&mut self.files, &mut files);
        let ghost before = Self::model(files@);
        let mut due: Vec<String> = Vec::new();
        let mut i: usize = 0;
        assert(before.take(0) =~= Seq::<WatchedFile>::empty());
        assert(due.deep_view() =~= due_paths(before.take(0), now)) by {
            reveal(Seq::filter);
        }
        while i < files.len()
            invariant
                i <= files@.len(),
                files@.len() == before.len(),
                forall|j: int| 0 <= j < before.len() ==> files@[j].path@ == before[j].path,
                forall|j: int| 0 <= j < i ==> files@[j].state == before[j].state.dispatched(now),
                forall|j: int| i <= j < before.len() ==> files@[j].state == before[j].state,
                due.deep_view() == due_paths(before.take(i as int), now),
            decreases files@.len() - i,
        {
            let state = files[i].state;
            let uploading = match state.phase {
                Phase::Uploading => true,
                _ => false,
            };
            proof {
                lemma_due_paths_step(before, i as int, now);
            }
            if !uploading && state.due <= now {
                files[i].state.phase = Phase::Uploading;
                files[i].state.changed = false;
                let path = files[i].path.clone();
                due.push(path);
                assert(due.deep_view() =~= due_paths(before.take(i as int), now).push(
                    before[i as int].path,
                ));
            }
            i = i + 1;
        }
        proof {
            assert(before.take(i as int) =~= before);
            assert(Self::model(files@) =~= after_dispatch(before, now));
            lemma_dispatch_keeps_places(before, now);
        }
        self.files = files;
        due
    }

    /// Takes note that the upload of the file `path` has ended at the time
    /// `now`, and says what follows. A file that has changed during its
    /// upload settles again and is then uploaded anew. Else a file that was
    /// uploaded is done with; one whose upload failed is tried again later,
    /// or given up when it has failed as often as the configuration allows.
    /// Where no upload of the file was under way, nothing changes.
    pub fn finished(&mut self, path: &str, success: bool, now: u64) -> (outcome: Outcome)
        ensures
            outcome == outcome_of(old(self)@, path@, success, now, old(self).config()),
            final(self)@ == after_upload(old(self)@, path@, success, now, old(self).config()),
            final(self).config() == old(self).config(),
            distinct(old(self)@) && distinct(final(self)@),
    {
        proof {
            use_type_invariant(&*self);
        }
        let key = path.to_owned();
        let i = match self.find(&key) {
            Some(i) => i,
            None => {
                return Outcome::Ignored;
            },
        };
        proof {
            lemma_position_found(self@, path@);
        }
        let state = self.files[i].state;
        let uploading = match state.phase {
            Phase::Uploading => true,
            _ => false,
        };
        if !uploading {
            assert(self@ =~= after_upload(old(self)@, path@, success, now, old(self).config()));
            return Outcome::Ignored;
        }
        let failures = state.attempts.saturating_add(1);
        let outcome = if state.changed {
            Outcome::Again
        } else if success {
            Outcome::Done
        } else if failures >= self.cfg.max_attempts {
            Outcome::GivenUp
        } else {
            Outcome::Retry { at: now.saturating_add(delay_after(self.cfg.backoff, failures)) }
        };
        let mut files: Vec<Entry> = Vec::new();
        std::mem::swap(&mut self.files, &mut files);
        match outcome {
            Outcome::Again => {
                files[i].state = FileState {
                    phase: Phase::Settling,
                    due: state.due,
                    attempts: 0,
                    changed: false,
                };
            },
            Outcome::Retry { at } => {
                files[i].state = FileState {
                    phase: Phase::Waiting,
                    due: at,
                    attempts: failures,
                    changed: false,
                };
            },
            _ => {
                files.remove(i);
            },
        }
        proof {
            assert(Self::model(files@) =~= after_upload(
                old(self)@,
                path@,
                success,
                now,
                old(self).config(),
            ));
            lemma_upload_keeps_distinct(old(self)@, path@, success, now, old(self).config());
        }
        self.files = files;
        outcome
    }

    /// Returns the time at which the next upload is to begin, as far as it
    /// is known now: the earliest time at which a file that is not being
    /// uploaded is due. There is none where no such file is tracked.
    pub fn next_due(&self) -> (time: Option<u64>)
        ensures
            match time {
                Some(time) => {
                    &&& exists|i: int|
                        0 <= i < self@.len() && !(self@[i].state.phase is Uploading)
                            && self@[i].state.due == time
                    &&& forall|i: int|
                        0 <= i < self@.len() && !(self@[i].state.phase is Uploading) ==> time
                            <= self@[i].state.due
                },
                None => forall|i: int| 0 <= i < self@.len() ==> self@[i].state.phase is Uploading,
            },
    {
        let mut time: Option<u64> = None;
        let mut i: usize = 0;
        while i < self.files.len()
            invariant
                i <= self.files@.len(),
                match time {
                    Some(time) => {
                        &&& exists|k: int|
                            0 <= k < i && !(self@[k].state.phase is Uploading)
                                && self@[k].state.due == time
                        &&& forall|k: int|
                            0 <= k < i && !(self@[k].state.phase is Uploading) ==> time
                                <= self@[k].state.due
                    },
                    None => forall|k: int| 0 <= k < i ==> self@[k].state.phase is Uploading,
                },
            decreases self.files@.len() - i,
        {
            let state = self.files[i].state;
            let uploading = match state.phase {
                Phase::Uploading => true,
                _ => false,
            };
            if !uploading {
                let earlier = match time {
                    Some(t) => state.due < t,
                    None => true,
                };
                if earlier {
                    assert(self@[i as int].state.due == state.due);
                    time = Some(state.due);
                }
            }
            i = i + 1;
        }
        time
    }
}

fn delay_after(backoff: u64, failures: u32) -> (delay: u64)
    ensures
        delay == retry_delay(backoff, failures as nat),
{
    let mut delay = backoff;
    let mut k: u32 = 1;
    assert(retry_delay(backoff, 0) == backoff && retry_delay(backoff, 1) == backoff);
    while k < failures
        invariant
            1 <= k,
            k <= failures || k == 1,
            delay == retry_delay(backoff, k as nat),
            retry_delay(backoff, 0) == retry_delay(backoff, 1),
        decreases failures - k,
    {
        assert(retry_delay(backoff, (k + 1) as nat) == later(delay, delay));
        delay = delay.saturating_add(delay);
        k = k + 1;
    }
    delay
}

/// Handing files out leaves each file at its place.
pub proof fn lemma_dispatch_keeps_places(files: Seq<WatchedFile>, now: u64)
    requires
        distinct(files),
    ensures
        distinct(after_dispatch(files, now)),
        forall|path: Seq<char>|
            position(after_dispatch(files, now), path) == position(files, path),
{
    let after = after_dispatch(files, now);
    assert forall|path: Seq<char>| position(after, path) == position(files, path) by {
        if position(files, path) is Some {
            lemma_position_found(files, path);
            let i = position(files, path)->0;
            assert(after[i].path == path);
            lemma_position_at(after, i);
        } else if position(after, path) is Some {
            lemma_position_found(after, path);
            let i = position(after, path)->0;
            assert(files[i].path == path);
        }
    }
}

/// Files stay distinct when an upload ends.
pub proof fn lemma_upload_keeps_distinct(
    files: Seq<WatchedFile>,
    path: Seq<char>,
    success: bool,
    now: u64,
    cfg: WatchConfig,
)
    requires
        distinct(files),
    ensures
        distinct(after_upload(files, path, success, now, cfg)),
{
    let after = after_upload(files, path, success, now, cfg);
    if position(files, path) is Some {
        lemma_position_found(files, path);
        let place = position(files, path)->0;
        if files[place].state.outcome(success, now, cfg).forgets() {
            assert forall|i: int, j: int| 0 <= i < j < after.len() implies after[i].path
                != after[j].path by {
                let i_before = if i < place { i } else { i + 1 };
                let j_before = if j < place { j } else { j + 1 };
                assert(after[i] == files[i_before]);
                assert(after[j] == files[j_before]);
            }
        } else {
            assert forall|i: int, j: int| 0 <= i < j < after.len() implies after[i].path
                != after[j].path by {
                assert(after[i].path == files[i].path);
                assert(after[j].path == files[j].path);
            }
        }
    }
}

/// The files that are due among the first `i + 1` are those among the
/// first `i`, and the next file if it is due.
proof fn lemma_due_paths_step(files: Seq<WatchedFile>, i: int, now: u64)
    requires
        0 <= i < files.len(),
    ensures
        due_paths(files.take(i + 1), now) == if files[i].state.is_due(now) {
            due_paths(files.take(i), now).push(files[i].path)
        } else {
            due_paths(files.take(i), now)
        },
{
    reveal(Seq::filter);
    let longer = files.take(i + 1);
    assert(longer.drop_last() =~= files.take(i));
    assert(longer.last() == files[i]);
    if files[i].state.is_due(now) {
        assert(due_paths(longer, now) =~= due_paths(files.take(i), now).push(files[i].path));
    }
}

/// Files stay distinct when one of them changes.
pub proof fn lemma_change_keeps_distinct(
    files: Seq<WatchedFile>,
    path: Seq<char>,
    now: u64,
    quiet: u64,
)
    requires
        distinct(files),
    ensures
        distinct(after_change(files, path, now, quiet)),
{
    let after = after_change(files, path, now, quiet);
    match position(files, path) {
        Some(place) => {
            lemma_position_found(files, path);
            assert forall|i: int, j: int| 0 <= i < j < after.len() implies after[i].path
                != after[j].path by {
                assert(after[i].path == files[i].path);
                assert(after[j].path == files[j].path);
            }
        },
        None => {
            assert forall|i: int, j: int| 0 <= i < j < after.len() implies after[i].path
                != after[j].path by {
                if j < files.len() {
                    assert(after[i] == files[i] && after[j] == files[j]);
                } else {
                    assert(after[i] == files[i]);
                    assert(files[i].path != path);
                }
            }
        },
    }
}

/// How often `path` occurs in `paths`.
pub open spec fn occurrences(paths: Seq<Seq<char>>, path: Seq<char>) -> nat
    decreases paths.len(),
{
    if paths.len() == 0 {
        0
    } else {
        occurrences(paths.drop_last(), path) + if paths.last() == path {
            1nat
        } else {
            0nat
        }
    }
}

/// The files after they have been dispatched at each of `times` in turn.
pub open spec fn after_dispatches(files: Seq<WatchedFile>, times: Seq<u64>) -> Seq<WatchedFile>
    decreases times.len(),
{
    if times.len() == 0 {
        files
    } else {
        after_dispatches(after_dispatch(files, times[0]), times.drop_first())
    }
}

/// How often `path` is handed out when the files are dispatched at each of
/// `times` in turn.
pub open spec fn dispatch_count(files: Seq<WatchedFile>, path: Seq<char>, times: Seq<u64>) -> nat
    decreases times.len(),
{
    if times.len() == 0 {
        0
    } else {
        occurrences(due_paths(files, times[0]), path) + dispatch_count(
            after_dispatch(files, times[0]),
            path,
            times.drop_first(),
        )
    }
}

/// Whether one of `times` is not before `due`.
pub open spec fn reached(times: Seq<u64>, due: u64) -> bool {
    exists|k: int| 0 <= k < times.len() && due <= times[k]
}

/// One dispatch hands a file out once if it is due, and not at all if it
/// is not due or not tracked.
pub proof fn lemma_due_once(files: Seq<WatchedFile>, path: Seq<char>, now: u64)
    requires
        distinct(files),
    ensures
        occurrences(due_paths(files, now), path) == match position(files, path) {
            Some(i) => if files[i].state.is_due(now) {
                1nat
            } else {
                0nat
            },
            None => 0nat,
        },
    decreases files.len(),
{
    if files.len() == 0 {
        reveal(Seq::filter);
        assert(due_paths(files, now) =~= Seq::<Seq<char>>::empty());
    } else {
        let n = files.len() - 1;
        let init = files.drop_last();
        let last = files.last();
        assert(files.take(n + 1) =~= files);
        assert(files.take(n) =~= init);
        lemma_due_paths_step(files, n, now);
        lemma_due_once(init, path, now);
        let before = due_paths(init, now);
        if last.state.is_due(now) {
            assert(before.push(last.path).drop_last() =~= before);
        }
        if last.path == path {
            lemma_position_at(files, n);
            if position(init, path) is Some {
                lemma_position_found(init, path);
                assert(files[position(init, path)->0].path == path);
            }
        } else if position(init, path) is Some {
            lemma_position_found(init, path);
            let i = position(init, path)->0;
            assert(files[i] == init[i]);
            lemma_position_at(files, i);
        } else if position(files, path) is Some {
            lemma_position_found(files, path);
            let i = position(files, path)->0;
            assert(init[i].path == path);
        }
    }
}

/// However often the files are dispatched, a file is handed out at most
/// once: at the first of the times that is not before the time at which
/// it is due. A file whose upload is under way is not handed out. Until it
/// is handed out, the file's state stays as it is.
pub proof fn lemma_dispatched_once(
    files: Seq<WatchedFile>,
    path: Seq<char>,
    times: Seq<u64>,
)
    requires
        distinct(files),
        position(files, path) is Some,
    ensures
        ({
            let state = files[position(files, path)->0].state;
            let after = after_dispatches(files, times);
            &&& distinct(after)
            &&& position(after, path) == position(files, path)
            &&& dispatch_count(files, path, times) == if !(state.phase is Uploading) && reached(
                times,
                state.due,
            ) {
                1nat
            } else {
                0nat
            }
            &&& dispatch_count(files, path, times) == 0 ==> after[position(files, path)->0].state
                == state
        }),
    decreases times.len(),
{
    let i = position(files, path)->0;
    lemma_position_found(files, path);
    let state = files[i].state;
    if times.len() > 0 {
        let now = times[0];
        let rest = times.drop_first();
        let next = after_dispatch(files, now);
        lemma_due_once(files, path, now);
        lemma_dispatch_keeps_places(files, now);
        assert(next[i].state == state.dispatched(now));
        lemma_dispatched_once(next, path, rest);
        if !(state.phase is Uploading) {
            if state.due <= now {
                assert(reached(times, state.due));
            } else if reached(rest, state.due) {
                let k = choose|k: int| 0 <= k < rest.len() && state.due <= rest[k];
                assert(times[k + 1] == rest[k]);
                assert(reached(times, state.due));
            } else if reached(times, state.due) {
                let k = choose|k: int| 0 <= k < times.len() && state.due <= times[k];
                assert(rest[k - 1] == times[k]);
            }
        }
    }
}

/// A file that changes twice, the second time before the quiet period of
/// the first change has ended, is handed out exactly once, however often
/// the files are dispatched: not before the second change, and then at the
/// first dispatch that is not before the end of the quiet period that began
/// with the second change.
pub proof fn lemma_debounce(
    files: Seq<WatchedFile>,
    path: Seq<char>,
    quiet: u64,
    first: u64,
    between: Seq<u64>,
    second: u64,
    after: Seq<u64>,
)
    requires
        distinct(files),
        position(files, path) is None,
        first <= second < later(first, quiet),
        forall|k: int| 0 <= k < between.len() ==> between[k] <= second,
    ensures
        ({
            let once = after_change(files, path, first, quiet);
            let twice = after_change(after_dispatches(once, between), path, second, quiet);
            &&& dispatch_count(once, path, between) == 0
            &&& dispatch_count(twice, path, after) == if reached(after, later(second, quiet)) {
                1nat
            } else {
                0nat
            }
        }),
{
    let once = after_change(files, path, first, quiet);
    let place = files.len() as int;
    lemma_change_keeps_distinct(files, path, first, quiet);
    assert(once[place].path == path);
    lemma_position_at(once, place);
    lemma_dispatched_once(once, path, between);
    assert(!reached(between, later(first, quiet)));
    let waited = after_dispatches(once, between);
    assert(waited[place].state == FileState::fresh(first, quiet));
    lemma_position_found(waited, path);
    let twice = after_change(waited, path, second, quiet);
    lemma_change_keeps_distinct(waited, path, second, quiet);
    assert(twice[place].path == path);
    lemma_position_at(twice, place);
    lemma_dispatched_once(twice, path, after);
}

/// The uploads of an unchanged file that fail in a row are counted, and the
/// file is tried again only while fewer of them have failed than the
/// configuration allows. Each further attempt waits twice as long as the
/// one before, as far as time reaches.
pub proof fn lemma_attempts_are_limited(state: FileState, now: u64, cfg: WatchConfig)
    requires
        state.phase is Uploading,
        !state.changed,
    ensures
        state.attempts + 1 >= cfg.max_attempts ==> state.outcome(false, now, cfg) is GivenUp,
        state.attempts + 1 < cfg.max_attempts ==> {
            let next = state.finished(false, now, cfg);
            &&& state.outcome(false, now, cfg) == (Outcome::Retry { at: next.due })
            &&& next.phase is Waiting
            &&& next.attempts == state.attempts + 1
            &&& next.due == later(now, retry_delay(cfg.backoff, next.attempts as nat))
        },
        forall|failures: nat|
            failures >= 1 ==> #[trigger] retry_delay(cfg.backoff, failures + 1) == later(
                retry_delay(cfg.backoff, failures),
                retry_delay(cfg.backoff, failures),
            ),
{
}

} // verus!
