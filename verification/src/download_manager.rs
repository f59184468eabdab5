//! The registry of running downloads and the signals that stop them.
use std::sync::atomic::{AtomicBool, Ordering};
use std::sync::Arc;
use crate::text::{from_chars, to_chars};
use tokio::sync::Notify;
use vstd::prelude::*;

verus! {

/// `tokio::sync::Notify`, a notifier that tasks wait on. It is carried
/// around and handed out; nothing is known of what is inside.
#[verifier::external_type_specification]
#[verifier::external_body]
pub struct ExNotify(Notify);

/// Calls `Arc::clone`, which gives another handle to the same value.
#[verifier::external_body]
fn share<T>(handle: &Arc<T>) -> (r: Arc<T>)
    ensures
        r == handle,
{
    Arc::clone(handle)
}

/// Calls `tokio::sync::Notify::new`.
#[verifier::external_body]
fn new_notify() -> Notify {
    Notify::new()
}

/// Calls `tokio::sync::Notify::notify_waiters`, which wakes every task that
/// waits on the notifier at this moment.
#[verifier::external_body]
fn wake_waiters(notify: &Notify) {
    notify.notify_waiters()
}

/// The signals of one download: whether it is paused, whether it is
/// cancelled, and the notifier that wakes the tasks that wait for a change.
/// The flags are shared between tasks and may change at any moment.
pub struct DownloadControl {
    paused: Arc<AtomicBool>,
    cancelled: Arc<AtomicBool>,
    pause_notify: Arc<Notify>,
}

impl DownloadControl {
    /// Signals of a download that is neither paused nor cancelled.
    pub fn new() -> Self {
        DownloadControl {
            paused: Arc::new(AtomicBool::new(false)),
            cancelled: Arc::new(AtomicBool::new(false)),
            pause_notify: Arc::new(new_notify()),
        }
    }

    /// Sets the pause flag.
    pub fn pause(&self) {
        self.paused.store(true, Ordering::SeqCst);
    }

    /// Clears the pause flag and wakes the tasks that wait for a change.
    pub fn resume(&self) {
        self.paused.store(false, Ordering::SeqCst);
        wake_waiters(&self.pause_notify);
    }

    /// Sets the cancel flag and wakes the tasks that wait for a change.
    /// Nothing clears the flag again.
    pub fn cancel(&self) {
        self.cancelled.store(true, Ordering::SeqCst);
        wake_waiters(&self.pause_notify);
    }

    /// Reads the pause flag.
    pub fn is_paused(&self) -> bool {
        self.paused.load(Ordering::SeqCst)
    }

    /// Reads the cancel flag.
    pub fn is_cancelled(&self) -> bool {
        self.cancelled.load(Ordering::SeqCst)
    }

    /// A handle to the notifier of these signals: the one that `resume`
    /// and `cancel` wake the waiting tasks through.
    pub fn get_notify(&self) -> (notify: Arc<Notify>)
        ensures
            notify == self.notifier(),
    {
        share(&self.pause_notify)
    }

    /// A handle to the cancel flag of these signals: the one that `cancel`
    /// sets and `is_cancelled` reads.
    pub fn get_cancel_flag(&self) -> (flag: Arc<AtomicBool>)
        ensures
            flag == self.cancel_flag(),
    {
        share(&self.cancelled)
    }

    /// The cancel flag of these signals.
    pub closed spec fn cancel_flag(&self) -> Arc<AtomicBool> {
        self.cancelled
    }

    /// The notifier of these signals.
    pub closed spec fn notifier(&self) -> Arc<Notify> {
        self.pause_notify
    }
}

/// A running download as the registry knows it: its signals, and the
/// directory that its segments are kept in.
pub struct DownloadTask {
    pub control: Arc<DownloadControl>,
    pub temp_dir: String,
}

impl DownloadTask {
    /// A task with fresh signals for a download into `temp_dir`.
    pub fn new(temp_dir: String) -> (task: Self)
        ensures
            task.temp_dir@ == temp_dir@,
    {
        DownloadTask { control: Arc::new(DownloadControl::new()), temp_dir }
    }

    /// A handle to the flag that cancels the task: the cancel flag of the
    /// task's own signals.
    pub fn get_cancel_flag(&self) -> (flag: Arc<AtomicBool>)
        ensures
            flag == self.control.cancel_flag(),
    {
        self.control.get_cancel_flag()
    }
}

/// The ids of the entries of a registry, in the order they are held in.
pub open spec fn entry_ids(s: Seq<(String, DownloadTask)>) -> Seq<Seq<char>> {
    s.map_values(|e: (String, DownloadTask)| e.0@)
}

/// The mapping from id to task that a list of entries with distinct ids
/// stands for.
pub open spec fn entry_map(s: Seq<(String, DownloadTask)>) -> Map<Seq<char>, DownloadTask> {
    Map::new(
        |id: Seq<char>| entry_ids(s).contains(id),
        |id: Seq<char>| s[entry_ids(s).index_of(id)].1,
    )
}

proof fn lemma_entry_at(s: Seq<(String, DownloadTask)>, j: int)
    requires
        entry_ids(s).no_duplicates(),
        0 <= j < s.len(),
    ensures
        entry_ids(s).contains(s[j].0@),
        entry_ids(s).index_of(s[j].0@) == j,
        entry_map(s).contains_key(s[j].0@),
        entry_map(s)[s[j].0@] == s[j].1,
{
    let ids = entry_ids(s);
    assert(ids[j] == s[j].0@);
    let k = ids.index_of(s[j].0@);
    assert(0 <= k < ids.len() && ids[k] == s[j].0@);
}

proof fn lemma_entry_pushed(s: Seq<(String, DownloadTask)>, e: (String, DownloadTask))
    requires
        entry_ids(s).no_duplicates(),
        !entry_ids(s).contains(e.0@),
    ensures
        entry_ids(s.push(e)).no_duplicates(),
        entry_map(s.push(e)) == entry_map(s).insert(e.0@, e.1),
{
    let t = s.push(e);
    assert(entry_ids(t) =~= entry_ids(s).push(e.0@));
    assert(entry_ids(t).no_duplicates()) by {
        assert forall|a: int, b: int|
            0 <= a < entry_ids(t).len() && 0 <= b < entry_ids(t).len() && a != b implies entry_ids(
            t,
        )[a] != entry_ids(t)[b] by {
            if a < s.len() {
                assert(entry_ids(s)[a] == entry_ids(t)[a]);
                assert(entry_ids(s).contains(entry_ids(t)[a]));
            }
            if b < s.len() {
                assert(entry_ids(s)[b] == entry_ids(t)[b]);
                assert(entry_ids(s).contains(entry_ids(t)[b]));
            }
        }
    }
    assert forall|id: Seq<char>| entry_map(t).contains_key(id) <==> entry_map(s).insert(
        e.0@,
        e.1,
    ).contains_key(id) by {
        if entry_ids(t).contains(id) {
            let k = choose|k: int| 0 <= k < entry_ids(t).len() && entry_ids(t)[k] == id;
            if k < s.len() {
                assert(entry_ids(s)[k] == id);
            }
        }
        if entry_ids(s).contains(id) {
            let k = choose|k: int| 0 <= k < entry_ids(s).len() && entry_ids(s)[k] == id;
            assert(entry_ids(t)[k] == id);
        }
        if id == e.0@ {
            assert(entry_ids(t)[s.len() as int] == id);
        }
    }
    assert forall|id: Seq<char>| entry_map(t).contains_key(id) implies entry_map(t)[id]
        == entry_map(s).insert(e.0@, e.1)[id] by {
        let k = choose|k: int| 0 <= k < entry_ids(t).len() && entry_ids(t)[k] == id;
        lemma_entry_at(t, k);
        if k < s.len() {
            assert(s[k].0@ == id);
            lemma_entry_at(s, k);
        }
    }
    assert(entry_map(t) =~= entry_map(s).insert(e.0@, e.1));
}

proof fn lemma_entry_removed(s: Seq<(String, DownloadTask)>, j: int)
    requires
        entry_ids(s).no_duplicates(),
        0 <= j < s.len(),
    ensures
        entry_ids(s.remove(j)).no_duplicates(),
        entry_map(s.remove(j)) == entry_map(s).remove(s[j].0@),
{
    let t = s.remove(j);
    let id_j = s[j].0@;
    assert forall|a: int| 0 <= a < t.len() implies #[trigger] entry_ids(t)[a] == entry_ids(s)[if a
        < j {
        a
    } else {
        a + 1
    }] by {}
    assert(entry_ids(t).no_duplicates()) by {
        assert forall|a: int, b: int|
            0 <= a < entry_ids(t).len() && 0 <= b < entry_ids(t).len() && a != b implies entry_ids(
            t,
        )[a] != entry_ids(t)[b] by {
            let a2 = if a < j {
                a
            } else {
                a + 1
            };
            let b2 = if b < j {
                b
            } else {
                b + 1
            };
            assert(entry_ids(t)[a] == entry_ids(s)[a2]);
            assert(entry_ids(t)[b] == entry_ids(s)[b2]);
        }
    }
    assert forall|id: Seq<char>| entry_map(t).contains_key(id) <==> entry_map(s).remove(
        id_j,
    ).contains_key(id) by {
        if entry_ids(t).contains(id) {
            let k = choose|k: int| 0 <= k < entry_ids(t).len() && entry_ids(t)[k] == id;
            let k2 = if k < j {
                k
            } else {
                k + 1
            };
            assert(entry_ids(s)[k2] == id);
            assert(entry_ids(s)[j] == id_j);
        }
        if entry_ids(s).contains(id) && id != id_j {
            let k = choose|k: int| 0 <= k < entry_ids(s).len() && entry_ids(s)[k] == id;
            assert(entry_ids(s)[j] == id_j);
            let k2 = if k < j {
                k
            } else {
                k - 1
            };
            assert(entry_ids(t)[k2] == id);
        }
    }
    assert forall|id: Seq<char>| entry_map(t).contains_key(id) implies entry_map(t)[id]
        == entry_map(s).remove(id_j)[id] by {
        let k = choose|k: int| 0 <= k < entry_ids(t).len() && entry_ids(t)[k] == id;
        lemma_entry_at(t, k);
        let k2 = if k < j {
            k
        } else {
            k + 1
        };
        assert(entry_ids(t)[k] == entry_ids(s)[k2]);
        assert(s[k2].0@ == id);
        lemma_entry_at(s, k2);
    }
    assert(entry_map(t) =~= entry_map(s).remove(id_j));
}

fn position_of(tasks: &Vec<(String, DownloadTask)>, id: &String) -> (r: Option<usize>)
    ensures
        match r {
            Some(j) => j < tasks.len() && tasks@[j as int].0@ == id@,
            None => !entry_ids(tasks@).contains(id@),
        },
{
    let mut j: usize = 0;
    while j < tasks.len()
        invariant
            j <= tasks.len(),
            forall|k: int| 0 <= k < j ==> (#[trigger] tasks@[k]).0@ != id@,
        decreases tasks.len() - j,
    {
        if tasks[j].0 == *id {
            return Some(j);
        }
        j += 1;
    }
    proof {
        if entry_ids(tasks@).contains(id@) {
            let k = choose|k: int|
                0 <= k < entry_ids(tasks@).len() && entry_ids(tasks@)[k] == id@;
            assert(tasks@[k].0@ == id@);
        }
    }
    None
}

fn owned(text: &str) -> (out: String)
    ensures
        out@ == text@,
{
    let chars: Vec<char> = to_chars(text);
    from_chars(chars.as_slice())
}

/// The registry of the downloads that are running: at most one task for an
/// id.
pub struct DownloadManager {
    tasks: Vec<(String, DownloadTask)>,
}

impl View for DownloadManager {
    type V = Map<Seq<char>, DownloadTask>;

    closed spec fn view(&self) -> Map<Seq<char>, DownloadTask> {
        entry_map(self.tasks@)
    }
}

impl DownloadManager {
    #[verifier::type_invariant]
    spec fn distinct_ids(self) -> bool {
        entry_ids(self.tasks@).no_duplicates()
    }

    /// A registry without tasks.
    pub fn new() -> (m: Self)
        ensures
            m@ == Map::<Seq<char>, DownloadTask>::empty(),
    {
        let m = DownloadManager { tasks: Vec::new() };
        assert(m@ =~= Map::<Seq<char>, DownloadTask>::empty());
        m
    }

    /// Whether a task is registered under `id`.
    pub fn task_exists(&self, id: &str) -> (r: bool)
        ensures
            r == self@.contains_key(id@),
    {
        let key: String = owned(id);
        let found: Option<usize> = position_of(&self.tasks, &key);
        proof {
            use_type_invariant(self);
            if let Some(j) = found {
                lemma_entry_at(self.tasks@, j as int);
            }
        }
        found.is_some()
    }

    /// Registers `task` under `id`. Where a task is registered under that
    /// id already, nothing changes and `false` is returned.
    pub fn add_task(&mut self, id: String, task: DownloadTask) -> (added: bool)
        ensures
            added == !old(self)@.contains_key(id@),
            added ==> final(self)@ == old(self)@.insert(id@, task),
            !added ==> final(self)@ == old(self)@,
            final(self)@.contains_key(id@),
    {
        proof {
            use_type_invariant(&*self);
        }
        match position_of(&self.tasks, &id) {
            Some(j) => {
                proof {
                    lemma_entry_at(self.tasks@, j as int);
                }
                false
            },
            None => {
                let mut tasks: Vec<(String, DownloadTask)> = Vec::new();
                core::mem::swap(&mut self.tasks, &mut tasks);
                proof {
                    lemma_entry_pushed(tasks@, (id, task));
                }
                tasks.push((id, task));
                core::mem::swap(&mut self.tasks, &mut tasks);
                true
            },
        }
    }

    /// Pauses the task that is registered under `id`. Returns whether there
    /// is one.
    pub fn pause_task(&self, id: &str) -> (found: bool)
        ensures
            found == self@.contains_key(id@),
    {
        let key: String = owned(id);
        let at: Option<usize> = position_of(&self.tasks, &key);
        proof {
            use_type_invariant(self);
            if let Some(j) = at {
                lemma_entry_at(self.tasks@, j as int);
            }
        }
        match at {
            Some(j) => {
                self.tasks[j].1.control.pause();
                true
            },
            None => false,
        }
    }

    /// Resumes the task that is registered under `id`. Returns whether
    /// there is one.
    pub fn resume_task(&self, id: &str) -> (found: bool)
        ensures
            found == self@.contains_key(id@),
    {
        let key: String = owned(id);
        let at: Option<usize> = position_of(&self.tasks, &key);
        proof {
            use_type_invariant(self);
            if let Some(j) = at {
                lemma_entry_at(self.tasks@, j as int);
            }
        }
        match at {
            Some(j) => {
                self.tasks[j].1.control.resume();
                true
            },
            None => false,
        }
    }

    /// Takes the task that is registered under `id` out of the registry.
    fn take_task(&mut self, id: &str) -> (r: Option<DownloadTask>)
        ensures
            final(self)@ == old(self)@.remove(id@),
            match r {
                Some(task) => old(self)@.contains_key(id@) && old(self)@[id@] == task,
                None => !old(self)@.contains_key(id@),
            },
    {
        proof {
            use_type_invariant(&*self);
        }
        let key: String = owned(id);
        match position_of(&self.tasks, &key) {
            Some(j) => {
                let mut tasks: Vec<(String, DownloadTask)> = Vec::new();
                core::mem::swap(&mut self.tasks, &mut tasks);
                proof {
                    lemma_entry_at(tasks@, j as int);
                    lemma_entry_removed(tasks@, j as int);
                }
                let entry: (String, DownloadTask) = tasks.remove(j);
                core::mem::swap(&mut self.tasks, &mut tasks);
                Some(entry.1)
            },
            None => {
                assert(self@ =~= self@.remove(id@));
                None
            },
        }
    }

    /// Cancels the task that is registered under `id`: it leaves the
    /// registry and its cancel flag is set. Its directory is not touched.
    /// Returns whether there was such a task; where there was none, nothing
    /// changes.
    pub fn cancel_task(&mut self, id: &str) -> (found: bool)
        ensures
            found == old(self)@.contains_key(id@),
            final(self)@ == old(self)@.remove(id@),
    {
        match self.take_task(id) {
            Some(task) => {
                task.control.cancel();
                true
            },
            None => false,
        }
    }

    /// Deletes the task that is registered under `id`: it leaves the
    /// registry and its cancel flag is set. Returns the directory of its
    /// segments, which is to be deleted with everything in it; `None` where
    /// there was no such task, and nothing changes then.
    pub fn delete_task(&mut self, id: &str) -> (purge: Option<String>)
        ensures
            final(self)@ == old(self)@.remove(id@),
            match purge {
                Some(dir) => old(self)@.contains_key(id@) && dir@ == old(self)@[id@].temp_dir@,
                None => !old(self)@.contains_key(id@),
            },
    {
        match self.take_task(id) {
            Some(task) => {
                task.control.cancel();
                Some(task.temp_dir)
            },
            None => None,
        }
    }
}

} // verus!
