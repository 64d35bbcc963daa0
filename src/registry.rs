use vstd::prelude::*;
use crate::app::App;
use crate::events::{translate, translation, AppEvent, InputEvent};

verus! {

/// A client's terminal size in character cells.
#[derive(Clone, Copy, Debug, PartialEq, Eq, Structural)]
pub struct Geometry {
    pub width: u32,
    pub height: u32,
}

impl Geometry {
    /// The size of a client that has not yet told its terminal size.
    pub fn empty() -> (r: Geometry)
        ensures
            r.width == 0,
            r.height == 0,
    {
        Geometry { width: 0, height: 0 }
    }
}

/// What the server holds for one connected viewer.
pub struct ClientSession {
    /// The viewer's animation state.
    pub app: App,
    /// The viewer's terminal size.
    pub geometry: Geometry,
}

/// Why the registry refused a change.
#[derive(Clone, Copy, Debug, PartialEq, Eq, Structural)]
pub enum RegistryError {
    /// A session with that connection id is already registered.
    DuplicateId,
}

/// What became of a chunk of bytes that a client sent.
#[derive(Clone, Copy, Debug, PartialEq, Eq, Structural)]
pub enum DataOutcome {
    /// The bytes stand for no event; nothing changed.
    Ignored,
    /// No session is registered for the connection; nothing changed.
    NoSession,
    /// The event was applied and the session goes on.
    Applied,
    /// The session has stopped and was removed; the caller closes the
    /// connection's channel.
    Closed,
}

/// The active sessions, keyed by connection id.
pub struct SessionRegistry {
    sessions: Vec<(usize, ClientSession)>,
}

/// No connection id occurs twice in `s`.
pub open spec fn ids_distinct(s: Seq<(usize, ClientSession)>) -> bool {
    forall|i: int, j: int|
        0 <= i < s.len() && 0 <= j < s.len() && #[trigger] s[i].0 == #[trigger] s[j].0 ==> i == j
}

/// `id` occurs in `s`.
pub open spec fn has_id(s: Seq<(usize, ClientSession)>, id: usize) -> bool {
    exists|i: int| 0 <= i < s.len() && #[trigger] s[i].0 == id
}

/// The entries of `s`, as a map from connection id to session.
pub open spec fn entries_map(s: Seq<(usize, ClientSession)>) -> Map<usize, ClientSession> {
    Map::new(
        |id: usize| has_id(s, id),
        |id: usize| s[choose|i: int| 0 <= i < s.len() && #[trigger] s[i].0 == id].1,
    )
}

proof fn lemma_entry(s: Seq<(usize, ClientSession)>, i: int)
    requires
        ids_distinct(s),
        0 <= i < s.len(),
    ensures
        entries_map(s).contains_key(s[i].0),
        entries_map(s)[s[i].0] == s[i].1,
{
    assert(has_id(s, s[i].0));
}

/// `entries_map(s)` is `m` when the entries of `s` are exactly those of `m`.
proof fn lemma_entries_are(s: Seq<(usize, ClientSession)>, m: Map<usize, ClientSession>)
    requires
        ids_distinct(s),
        forall|i: int|
            0 <= i < s.len() ==> m.contains_key(#[trigger] s[i].0) && m[s[i].0] == s[i].1,
        forall|k: usize| m.contains_key(k) ==> has_id(s, k),
    ensures
        entries_map(s) == m,
{
    assert forall|k: usize| #[trigger] entries_map(s).contains_key(k) implies m.contains_key(k)
        && entries_map(s)[k] == m[k] by {
        let i = choose|i: int| 0 <= i < s.len() && #[trigger] s[i].0 == k;
        lemma_entry(s, i);
    }
    assert(entries_map(s) =~= m);
}

/// Replacing the session at one position keeps ids unique and replaces the
/// map entry for that position's id.
proof fn lemma_replace(s: Seq<(usize, ClientSession)>, i: int, v: ClientSession)
    requires
        ids_distinct(s),
        0 <= i < s.len(),
    ensures
        ids_distinct(s.update(i, (s[i].0, v))),
        entries_map(s.update(i, (s[i].0, v))) == entries_map(s).insert(s[i].0, v),
{
    let t = s.update(i, (s[i].0, v));
    let m = entries_map(s).insert(s[i].0, v);
    assert forall|a: int, b: int|
        0 <= a < t.len() && 0 <= b < t.len() && #[trigger] t[a].0 == #[trigger] t[b].0 implies a
        == b by {
        assert(s[a].0 == s[b].0);
    }
    assert forall|j: int| 0 <= j < t.len() implies m.contains_key(#[trigger] t[j].0) && m[t[j].0]
        == t[j].1 by {
        if j != i {
            lemma_entry(s, j);
        }
    }
    assert forall|k: usize| m.contains_key(k) implies has_id(t, k) by {
        if k != s[i].0 {
            let j = choose|j: int| 0 <= j < s.len() && #[trigger] s[j].0 == k;
            assert(t[j].0 == k);
        } else {
            assert(t[i].0 == k);
        }
    }
    lemma_entries_are(t, m);
}

/// A session after one tick of the redraw clock at time `now`.
pub open spec fn ticked(s: ClientSession, now: u64) -> ClientSession {
    ClientSession { app: s.app.after(AppEvent::Tick(now)), geometry: s.geometry }
}

/// A session after `event`.
pub open spec fn with_event(s: ClientSession, event: InputEvent) -> ClientSession {
    ClientSession { app: s.app.after(AppEvent::Input(event)), geometry: s.geometry }
}

/// A session whose terminal size is now `width` by `height`.
pub open spec fn resized(s: ClientSession, width: u32, height: u32) -> ClientSession {
    ClientSession { app: s.app, geometry: Geometry { width, height } }
}

/// A session marked as no longer running.
pub open spec fn stopped(s: ClientSession) -> ClientSession {
    ClientSession { app: App { running: false, ..s.app }, geometry: s.geometry }
}

impl SessionRegistry {
    /// The registered sessions by connection id.
    pub closed spec fn view(&self) -> Map<usize, ClientSession> {
        entries_map(self.sessions@)
    }

    /// Connection ids are unique and each session's state is well formed.
    pub closed spec fn wf(&self) -> bool {
        &&& ids_distinct(self.sessions@)
        &&& forall|i: int| 0 <= i < self.sessions@.len() ==> (#[trigger] self.sessions@[i]).1.app.wf()
    }

    /// Every registered session is well formed.
    pub proof fn lemma_sessions_wf(&self)
        requires
            self.wf(),
        ensures
            forall|id: usize| #[trigger] self.view().contains_key(id) ==> self.view()[id].app.wf(),
    {
        assert forall|id: usize| #[trigger] self.view().contains_key(id) implies self.view()[
            id].app.wf() by {
            let i = choose|i: int| 0 <= i < self.sessions@.len() && #[trigger] self.sessions@[i].0 == id;
            lemma_entry(self.sessions@, i);
        }
    }

    /// An empty registry.
    pub fn new() -> (r: SessionRegistry)
        ensures
            r.wf(),
            r.view() == Map::<usize, ClientSession>::empty(),
    {
        let r = SessionRegistry { sessions: Vec::new() };
        assert(entries_map(r.sessions@) =~= Map::<usize, ClientSession>::empty());
        r
    }

    fn find(&self, id: usize) -> (r: Option<usize>)
        requires
            self.wf(),
        ensures
            match r {
                Some(i) => i < self.sessions@.len() && self.sessions@[i as int].0 == id,
                None => !has_id(self.sessions@, id),
            },
            r is Some <==> self.view().contains_key(id),
    {
        let n = self.sessions.len();
        let mut i: usize = 0;
        while i < n
            invariant
                n == self.sessions@.len(),
                i <= n,
                forall|j: int| 0 <= j < i ==> #[trigger] self.sessions@[j].0 != id,
            decreases n - i,
        {
            if self.sessions[i].0 == id {
                return Some(i);
            }
            i = i + 1;
        }
        None
    }

    /// Whether a session with connection id `id` is registered.
    pub fn contains(&self, id: usize) -> (r: bool)
        requires
            self.wf(),
        ensures
            r == self.view().contains_key(id),
    {
        self.find(id).is_some()
    }

    /// The session registered under `id`, if any.
    pub fn get(&self, id: usize) -> (r: Option<&ClientSession>)
        requires
            self.wf(),
        ensures
            match r {
                Some(s) => self.view().contains_key(id) && *s == self.view()[id],
                None => !self.view().contains_key(id),
            },
    {
        match self.find(id) {
            Some(i) => {
                proof {
                    lemma_entry(self.sessions@, i as int);
                }
                Some(&self.sessions[i].1)
            },
            None => None,
        }
    }

    /// Registers `session` under `id`. An id that is already registered is
    /// refused and the registry is left as it was.
    pub fn insert(&mut self, id: usize, session: ClientSession) -> (r: Result<(), RegistryError>)
        requires
            old(self).wf(),
            session.app.wf(),
        ensures
            final(self).wf(),
            old(self).view().contains_key(id) ==> r == Err::<(), RegistryError>(
                RegistryError::DuplicateId,
            ) && final(self).view() == old(self).view(),
            !old(self).view().contains_key(id) ==> r is Ok && final(self).view() == old(
                self,
            ).view().insert(id, session),
    {
        if self.find(id).is_some() {
            return Err(RegistryError::DuplicateId);
        }
        let ghost before = self.sessions@;
        let ghost m = entries_map(before).insert(id, session);
        self.sessions.push((id, session));
        proof {
            let s = self.sessions@;
            assert(s == before.push((id, session)));
            assert forall|i: int| 0 <= i < s.len() implies m.contains_key(#[trigger] s[i].0)
                && m[s[i].0] == s[i].1 by {
                if i < before.len() {
                    lemma_entry(before, i);
                }
            }
            assert forall|k: usize| m.contains_key(k) implies has_id(s, k) by {
                if k != id {
                    let j = choose|j: int| 0 <= j < before.len() && #[trigger] before[j].0 == k;
                    assert(s[j].0 == k);
                } else {
                    assert(s[before.len() as int].0 == id);
                }
            }
            lemma_entries_are(s, m);
        }
        Ok(())
    }

    /// Applies `event` to the session registered under `id`, and returns
    /// whether there was one; an unknown id changes nothing.
    pub fn apply_event(&mut self, id: usize, event: InputEvent) -> (r: bool)
        requires
            old(self).wf(),
        ensures
            final(self).wf(),
            r == old(self).view().contains_key(id),
            r ==> final(self).view() == old(self).view().insert(
                id,
                with_event(old(self).view()[id], event),
            ),
            !r ==> final(self).view() == old(self).view(),
    {
        match self.find(id) {
            None => false,
            Some(i) => {
                proof {
                    lemma_entry(self.sessions@, i as int);
                }
                let ghost before = self.sessions@;
                self.sessions[i].1.app.handle_event(AppEvent::Input(event));
                proof {
                    lemma_replace(before, i as int, with_event(before[i as int].1, event));
                    assert(self.sessions@ == before.update(i as int, (id, with_event(before[i as int].1, event))));
                }
                true
            },
        }
    }

    /// Sets the terminal size of the session registered under `id`, and
    /// returns whether there was one; an unknown id changes nothing. The
    /// animation and the scroll offset are kept.
    pub fn resize(&mut self, id: usize, width: u32, height: u32) -> (r: bool)
        requires
            old(self).wf(),
        ensures
            final(self).wf(),
            r == old(self).view().contains_key(id),
            r ==> final(self).view() == old(self).view().insert(
                id,
                resized(old(self).view()[id], width, height),
            ),
            !r ==> final(self).view() == old(self).view(),
    {
        match self.find(id) {
            None => false,
            Some(i) => {
                proof {
                    lemma_entry(self.sessions@, i as int);
                }
                let ghost before = self.sessions@;
                self.sessions[i].1.geometry = Geometry { width, height };
                proof {
                    lemma_replace(before, i as int, resized(before[i as int].1, width, height));
                    assert(self.sessions@ == before.update(
                        i as int,
                        (id, resized(before[i as int].1, width, height)),
                    ));
                }
                true
            },
        }
    }

    /// Marks the session registered under `id` as no longer running, so that
    /// the next sweep removes it, and returns whether there was one.
    pub fn stop(&mut self, id: usize) -> (r: bool)
        requires
            old(self).wf(),
        ensures
            final(self).wf(),
            r == old(self).view().contains_key(id),
            r ==> final(self).view() == old(self).view().insert(id, stopped(old(self).view()[id])),
            !r ==> final(self).view() == old(self).view(),
    {
        match self.find(id) {
            None => false,
            Some(i) => {
                proof {
                    lemma_entry(self.sessions@, i as int);
                }
                let ghost before = self.sessions@;
                self.sessions[i].1.app.running = false;
                proof {
                    lemma_replace(before, i as int, stopped(before[i as int].1));
                    assert(self.sessions@ == before.update(i as int, (id, stopped(before[i as int].1))));
                }
                true
            },
        }
    }

    /// Advances every session by one tick of the redraw clock at time `now`.
    /// Nothing else changes: no session is added or removed, and no scroll
    /// offset or terminal size moves.
    pub fn tick_all(&mut self, now: u64)
        requires
            old(self).wf(),
        ensures
            final(self).wf(),
            final(self).view() == old(self).view().map_values(|s: ClientSession| ticked(s, now)),
    {
        let ghost orig = self.sessions@;
        let n = self.sessions.len();
        let mut i: usize = 0;
        while i < n
            invariant
                self.wf(),
                n == self.sessions@.len(),
                n == orig.len(),
                i <= n,
                forall|j: int| 0 <= j < n ==> (#[trigger] self.sessions@[j]).0 == orig[j].0,
                forall|j: int| 0 <= j < i ==> (#[trigger] self.sessions@[j]).1 == ticked(orig[j].1, now),
                forall|j: int| i <= j < n ==> #[trigger] self.sessions@[j] == orig[j],
            decreases n - i,
        {
            let ghost before = self.sessions@;
            self.sessions[i].1.app.handle_event(AppEvent::Tick(now));
            proof {
                lemma_replace(before, i as int, ticked(before[i as int].1, now));
                assert(self.sessions@ == before.update(
                    i as int,
                    (before[i as int].0, ticked(before[i as int].1, now)),
                ));
            }
            i = i + 1;
        }
        proof {
            let m = entries_map(orig).map_values(|s: ClientSession| ticked(s, now));
            let s = self.sessions@;
            assert forall|j: int| 0 <= j < s.len() implies m.contains_key(#[trigger] s[j].0)
                && m[s[j].0] == s[j].1 by {
                lemma_entry(orig, j);
            }
            assert forall|k: usize| m.contains_key(k) implies has_id(s, k) by {
                let j = choose|j: int| 0 <= j < orig.len() && #[trigger] orig[j].0 == k;
                assert(s[j].0 == k);
            }
            lemma_entries_are(s, m);
        }
    }

    /// The connection ids of all registered sessions, each once.
    pub fn ids(&self) -> (r: Vec<usize>)
        requires
            self.wf(),
        ensures
            r@.no_duplicates(),
            forall|k: usize| r@.contains(k) <==> self.view().contains_key(k),
    {
        let n = self.sessions.len();
        let mut r: Vec<usize> = Vec::new();
        let mut i: usize = 0;
        while i < n
            invariant
                self.wf(),
                n == self.sessions@.len(),
                i <= n,
                r@.len() == i,
                forall|j: int| 0 <= j < i ==> #[trigger] r@[j] == self.sessions@[j].0,
            decreases n - i,
        {
            r.push(self.sessions[i].0);
            i = i + 1;
        }
        proof {
            let s = self.sessions@;
            assert forall|a: int, b: int| 0 <= a < b < r@.len() implies r@[a] != r@[b] by {
                assert(s[a].0 == r@[a] && s[b].0 == r@[b]);
            }
            assert forall|k: usize| r@.contains(k) <==> self.view().contains_key(k) by {
                if r@.contains(k) {
                    let j = choose|j: int| 0 <= j < r@.len() && r@[j] == k;
                    assert(s[j].0 == k);
                }
                if self.view().contains_key(k) {
                    let j = choose|j: int| 0 <= j < s.len() && #[trigger] s[j].0 == k;
                    assert(r@[j] == k);
                }
            }
        }
        r
    }

    /// Removes every session that is no longer running, and returns their
    /// connection ids, each once.
    pub fn remove_finished(&mut self) -> (r: Vec<usize>)
        requires
            old(self).wf(),
        ensures
            final(self).wf(),
            r@.no_duplicates(),
            forall|k: usize|
                r@.contains(k) <==> old(self).view().contains_key(k) && !old(self).view()[k].app.running,
            final(self).view() == old(self).view().remove_keys(r@.to_set()),
    {
        let ghost orig = self.view();
        let n = self.sessions.len();
        let mut finished: Vec<usize> = Vec::new();
        let mut i: usize = 0;
        while i < n
            invariant
                self.wf(),
                self.view() == orig,
                n == self.sessions@.len(),
                i <= n,
                finished@.no_duplicates(),
                forall|k: usize|
                    finished@.contains(k) <==> exists|j: int|
                        0 <= j < i && #[trigger] self.sessions@[j].0 == k
                            && !self.sessions@[j].1.app.running,
            decreases n - i,
        {
            let ghost prev = finished@;
            let ghost s = self.sessions@;
            let ghost x = s[i as int].0;
            let done = !self.sessions[i].1.app.running;
            if done {
                proof {
                    if prev.contains(x) {
                        let j = choose|j: int|
                            0 <= j < i && #[trigger] s[j].0 == x && !s[j].1.app.running;
                        assert(j == i);
                    }
                }
                finished.push(self.sessions[i].0);
            }
            proof {
                assert forall|k: usize|
                    finished@.contains(k) <==> exists|j: int|
                        0 <= j < i + 1 && #[trigger] s[j].0 == k && !s[j].1.app.running by {
                    if finished@.contains(k) {
                        if done && k == x {
                            assert(s[i as int].0 == k);
                        } else {
                            let t = choose|t: int| 0 <= t < finished@.len() && finished@[t] == k;
                            if done {
                                assert(finished@ == prev.push(x));
                                assert(t < prev.len());
                                assert(prev[t] == k);
                            }
                            assert(prev.contains(k));
                        }
                    }
                    if exists|j: int| 0 <= j < i + 1 && #[trigger] s[j].0 == k && !s[j].1.app.running {
                        let j = choose|j: int|
                            0 <= j < i + 1 && #[trigger] s[j].0 == k && !s[j].1.app.running;
                        if j == i {
                            assert(finished@[finished@.len() - 1] == k);
                        } else {
                            assert(prev.contains(k));
                            let t = choose|t: int| 0 <= t < prev.len() && prev[t] == k;
                            assert(finished@[t] == k);
                        }
                    }
                }
            }
            i = i + 1;
        }
        proof {
            let s = self.sessions@;
            assert forall|k: usize| finished@.contains(k) <==> orig.contains_key(k) && !orig[k].app.running by {
                if finished@.contains(k) {
                    let j = choose|j: int| 0 <= j < n && #[trigger] s[j].0 == k && !s[j].1.app.running;
                    lemma_entry(s, j);
                }
                if orig.contains_key(k) && !orig[k].app.running {
                    let j = choose|j: int| 0 <= j < s.len() && #[trigger] s[j].0 == k;
                    lemma_entry(s, j);
                }
            }
        }
        let m = finished.len();
        let mut t: usize = 0;
        while t < m
            invariant
                self.wf(),
                m == finished@.len(),
                t <= m,
                self.view() == orig.remove_keys(finished@.subrange(0, t as int).to_set()),
            decreases m - t,
        {
            let ghost before = self.view();
            self.remove(finished[t]);
            proof {
                let pre = finished@.subrange(0, t as int);
                let post = finished@.subrange(0, t + 1);
                let x = finished@[t as int];
                assert forall|k: usize| post.to_set().contains(k) <==> #[trigger] pre.to_set().insert(
                    x,
                ).contains(k) by {
                    if post.contains(k) {
                        let q = choose|q: int| 0 <= q < post.len() && #[trigger] post[q] == k;
                        if q < t {
                            assert(pre[q] == k);
                        }
                    }
                    if pre.contains(k) {
                        let q = choose|q: int| 0 <= q < pre.len() && #[trigger] pre[q] == k;
                        assert(post[q] == k);
                    }
                    if k == x {
                        assert(post[t as int] == k);
                    }
                }
                assert(post.to_set() =~= pre.to_set().insert(x));
                assert(self.view() =~= orig.remove_keys(post.to_set()));
            }
            t = t + 1;
        }
        assert(finished@.subrange(0, m as int) =~= finished@);
        finished
    }

    /// Handles bytes received on connection `id`: they are translated into an
    /// event, the event is applied to the connection's session, and a session
    /// that has stopped is removed.
    pub fn on_data(&mut self, id: usize, data: &[u8]) -> (r: DataOutcome)
        requires
            old(self).wf(),
        ensures
            final(self).wf(),
            match translation(data@) {
                None => r == DataOutcome::Ignored && final(self).view() == old(self).view(),
                Some(e) => if !old(self).view().contains_key(id) {
                    r == DataOutcome::NoSession && final(self).view() == old(self).view()
                } else if with_event(old(self).view()[id], e).app.running {
                    r == DataOutcome::Applied && final(self).view() == old(self).view().insert(
                        id,
                        with_event(old(self).view()[id], e),
                    )
                } else {
                    r == DataOutcome::Closed && final(self).view() == old(self).view().remove(id)
                },
            },
    {
        let event = match translate(data) {
            None => {
                return DataOutcome::Ignored;
            },
            Some(e) => e,
        };
        if !self.apply_event(id, event) {
            return DataOutcome::NoSession;
        }
        let ghost applied = self.view();
        let running = match self.get(id) {
            Some(session) => session.app.running,
            None => false,
        };
        if running {
            DataOutcome::Applied
        } else {
            self.remove(id);
            assert(self.view() =~= old(self).view().remove(id));
            DataOutcome::Closed
        }
    }

    /// Removes the session registered under `id` and hands it back; removing
    /// an id that is not registered changes nothing.
    pub fn remove(&mut self, id: usize) -> (r: Option<ClientSession>)
        requires
            old(self).wf(),
        ensures
            final(self).wf(),
            final(self).view() == old(self).view().remove(id),
            match r {
                Some(s) => old(self).view().contains_key(id) && s == old(self).view()[id],
                None => !old(self).view().contains_key(id),
            },
    {
        match self.find(id) {
            None => {
                assert(self.view().remove(id) =~= self.view());
                None
            },
            Some(i) => {
                let ghost before = self.sessions@;
                let ghost m = entries_map(before).remove(id);
                proof {
                    lemma_entry(before, i as int);
                }
                let (_, session) = self.sessions.remove(i);
                proof {
                    let s = self.sessions@;
                    assert(s == before.remove(i as int));
                    assert forall|a: int, b: int|
                        0 <= a < s.len() && 0 <= b < s.len() && #[trigger] s[a].0
                            == #[trigger] s[b].0 implies a == b by {
                        let a0 = if a < i { a } else { a + 1 };
                        let b0 = if b < i { b } else { b + 1 };
                        assert(before[a0].0 == before[b0].0);
                    }
                    assert forall|j: int| 0 <= j < s.len() implies m.contains_key(#[trigger] s[j].0)
                        && m[s[j].0] == s[j].1 by {
                        let j0 = if j < i { j } else { j + 1 };
                        assert(s[j] == before[j0]);
                        lemma_entry(before, j0);
                    }
                    assert forall|k: usize| m.contains_key(k) implies has_id(s, k) by {
                        let j = choose|j: int| 0 <= j < before.len() && #[trigger] before[j].0 == k;
                        if j < i {
                            assert(s[j].0 == k);
                        } else {
                            assert(s[j - 1].0 == k);
                        }
                    }
                    assert forall|j: int| 0 <= j < s.len() implies (#[trigger] s[j]).1.app.wf() by {
                        let j0 = if j < i { j } else { j + 1 };
                        assert(s[j] == before[j0]);
                    }
                    lemma_entries_are(s, m);
                }
                Some(session)
            },
        }
    }
}

/// Removing a connection id twice is the same as removing it once: the
/// second removal finds no session and leaves the registry as it was.
pub proof fn remove_twice_is_remove_once(sessions: Map<usize, ClientSession>, id: usize)
    ensures
        !sessions.remove(id).contains_key(id),
        sessions.remove(id).remove(id) == sessions.remove(id),
{
    assert(sessions.remove(id).remove(id) =~= sessions.remove(id));
}

} // verus!
