//! Several sessions, found by identifier or by name.
use crate::backend::PtyBackend;
use crate::error::PtyError;
use crate::session;
use crate::session::{MetadataView, PtySession, SessionId, SessionMetadata, SessionStatus, SessionView};
use crate::text;
use crate::text::{chars_equal, numbered, parse_unsigned, strip_prefix, to_chars};
use vstd::prelude::*;
use vstd::string::*;

verus! {

/// How many sessions there may be unless something else is said.
pub const DEFAULT_MAX_SESSIONS: usize = 15;

/// A session under the identifier that it was added with.
struct Entry<B: PtyBackend> {
    key: SessionId,
    session: PtySession<B>,
}

/// A session under its identifier.
pub struct EntryView<B> {
    pub key: Seq<char>,
    pub session: SessionView<B>,
}

/// The state of a manager: the sessions in the order in which they were added.
#[verifier::ext_equal]
pub struct ManagerView<B> {
    pub sessions: Seq<EntryView<B>>,
    pub max: usize,
    pub next_id: u64,
}

/// Manages sessions.
pub struct SessionManager<B: PtyBackend> {
    sessions: Vec<Entry<B>>,
    max_sessions: usize,
    next_id: u64,
}

/// The views of a list of entries.
spec fn entry_views<B: PtyBackend>(entries: Seq<Entry<B>>) -> Seq<EntryView<B>> {
    entries.map_values(|e: Entry<B>| EntryView { key: e.key@, session: e.session@ })
}

impl<B: PtyBackend> View for SessionManager<B> {
    type V = ManagerView<B>;

    closed spec fn view(&self) -> ManagerView<B> {
        ManagerView {
            sessions: entry_views(self.sessions@),
            max: self.max_sessions,
            next_id: self.next_id,
        }
    }
}

impl<B: PtyBackend> ManagerView<B> {
    /// All sessions are valid, and no two have the same identifier.
    pub open spec fn wf(self) -> bool {
        &&& forall|i: int| 0 <= i < self.sessions.len() ==> (#[trigger] self.sessions[i]).session.screen.wf()
        &&& forall|i: int, j: int|
            0 <= i < j < self.sessions.len() ==> (#[trigger] self.sessions[i]).key != (
            #[trigger] self.sessions[j]).key
    }

    /// The place of the session with an identifier.
    pub open spec fn place_of_id(self, id: Seq<char>) -> Option<int> {
        text::first_index(self.sessions, |e: EntryView<B>| e.key == id)
    }

    /// The place of the first session with a name.
    pub open spec fn place_of_name(self, name: Seq<char>) -> Option<int> {
        text::first_index(self.sessions, |e: EntryView<B>| e.session.name == Some(name))
    }

    /// The place of the session with an identifier; where there is none, of the first with that
    /// name.
    pub open spec fn place(self, id: Seq<char>) -> Option<int> {
        match self.place_of_id(id) {
            Some(i) => Some(i),
            None => self.place_of_name(id),
        }
    }

    /// One session changed.
    pub open spec fn with_session(self, i: int, s: SessionView<B>) -> ManagerView<B> {
        ManagerView {
            sessions: self.sessions.update(i, EntryView { key: self.sessions[i].key, session: s }),
            ..self
        }
    }

    /// A session added under its identifier, in the place of one that has it.
    pub open spec fn with_added(self, s: SessionView<B>) -> ManagerView<B> {
        match self.place_of_id(s.id) {
            Some(i) => self.with_session(i, s),
            None => ManagerView {
                sessions: self.sessions.push(EntryView { key: s.id, session: s }),
                ..self
            },
        }
    }

    /// What is known about the sessions, ordered by their numbers.
    pub open spec fn listing(self) -> Seq<MetadataView> {
        by_number(self.sessions.map_values(|e: EntryView<B>| e.session.meta()))
    }
}

/// The number of a session identifier such as `pty-7`; zero for all others.
pub open spec fn session_number(id: Seq<char>) -> int {
    if text::has_prefix(id, "pty-"@) {
        match text::unsigned_value(id.skip("pty-"@.len() as int), u64::MAX as int) {
            Some(n) => n,
            None => 0,
        }
    } else {
        0
    }
}

/// How many sessions at the front of a list have a number that is not larger.
pub open spec fn not_larger(list: Seq<MetadataView>, n: int) -> int
    decreases list.len(),
{
    if list.len() > 0 && session_number(list[0].id) <= n {
        1 + not_larger(list.skip(1), n)
    } else {
        0
    }
}

/// Sessions ordered by their numbers; those with the same number stay in order.
pub open spec fn by_number(list: Seq<MetadataView>) -> Seq<MetadataView>
    decreases list.len(),
{
    if list.len() == 0 {
        Seq::empty()
    } else {
        let front = by_number(list.drop_last());
        front.insert(not_larger(front, session_number(list.last().id)), list.last())
    }
}

/// Whether sessions are ordered by their numbers.
pub open spec fn is_by_number(list: Seq<MetadataView>) -> bool {
    forall|i: int, j: int|
        0 <= i <= j < list.len() ==> session_number((#[trigger] list[i]).id) <= session_number(
            (#[trigger] list[j]).id,
        )
}

proof fn lemma_not_larger(list: Seq<MetadataView>, n: int)
    ensures
        0 <= not_larger(list, n) <= list.len(),
        forall|i: int|
            0 <= i < not_larger(list, n) ==> session_number((#[trigger] list[i]).id) <= n,
        not_larger(list, n) < list.len() ==> session_number(list[not_larger(list, n)].id) > n,
    decreases list.len(),
{
    if list.len() > 0 && session_number(list[0].id) <= n {
        lemma_not_larger(list.skip(1), n);
        assert forall|i: int| 0 < i < list.len() implies list[i] == list.skip(1)[i - 1] by {}
    }
}

/// A listing is ordered by number and shows every session once.
pub proof fn law_listing_is_ordered_and_complete(list: Seq<MetadataView>)
    ensures
        is_by_number(by_number(list)),
        by_number(list).to_multiset() == list.to_multiset(),
        by_number(list).len() == list.len(),
    decreases list.len(),
{
    broadcast use vstd::seq_lib::group_to_multiset_ensures;

    if list.len() == 0 {
        assert(by_number(list) =~= list);
    } else {
        let m = list.last();
        let front = by_number(list.drop_last());
        let n = session_number(m.id);
        let at = not_larger(front, n);
        law_listing_is_ordered_and_complete(list.drop_last());
        lemma_not_larger(front, n);
        let all = front.insert(at, m);
        assert forall|i: int, j: int| 0 <= i <= j < all.len() implies session_number(
            (#[trigger] all[i]).id,
        ) <= session_number((#[trigger] all[j]).id) by {
            let a = if i < at {
                front[i]
            } else if i == at {
                m
            } else {
                front[i - 1]
            };
            let b = if j < at {
                front[j]
            } else if j == at {
                m
            } else {
                front[j - 1]
            };
            assert(all[i] == a && all[j] == b);
            if i >= at && j > at {
                assert(session_number(front[at].id) <= session_number(front[j - 1].id));
            }
        }
        assert(all.remove(at) =~= front);
        assert(all.contains(all[at]));
        assert(all.to_multiset().count(m) > 0);
        assert(list =~= list.drop_last().push(m));
        assert(list.to_multiset() =~= list.drop_last().to_multiset().insert(m));
        assert(all.to_multiset() =~= front.to_multiset().insert(m));
    }
}

/// The place of a session is one in the list.
pub proof fn lemma_place<B: PtyBackend>(m: ManagerView<B>, id: Seq<char>)
    ensures
        m.place(id) matches Some(i) ==> 0 <= i < m.sessions.len(),
{
    text::lemma_first_index(m.sessions, |e: EntryView<B>| e.key == id);
    text::lemma_first_index(m.sessions, |e: EntryView<B>| e.session.name == Some(id));
}

fn number_of(id: &str) -> (n: u64)
    ensures
        n == session_number(id@),
{
    let chars = to_chars(id);
    match strip_prefix(&chars, "pty-") {
        Some(rest) => match parse_unsigned(rest, u64::MAX) {
            Some(n) => n,
            None => 0,
        },
        None => 0,
    }
}

/// The views of a list of metadata.
pub open spec fn meta_views(list: Seq<SessionMetadata>) -> Seq<MetadataView> {
    list.map_values(|m: SessionMetadata| m@)
}

impl<B: PtyBackend> SessionManager<B> {
    /// The state is valid.
    pub open spec fn wf(&self) -> bool {
        self@.wf()
    }

    /// A manager without sessions, and with the usual limit.
    pub fn new() -> (m: Self)
        ensures
            m.wf(),
            m@ == (ManagerView::<B> { sessions: Seq::empty(), max: DEFAULT_MAX_SESSIONS, next_id: 1 }),
    {
        SessionManager::with_max_sessions(DEFAULT_MAX_SESSIONS)
    }

    /// A manager without sessions, and with a custom limit.
    pub fn with_max_sessions(max: usize) -> (m: Self)
        ensures
            m.wf(),
            m@ == (ManagerView::<B> { sessions: Seq::empty(), max, next_id: 1 }),
    {
        let m = SessionManager { sessions: Vec::new(), max_sessions: max, next_id: 1 };
        assert(m@.sessions =~= Seq::empty());
        m
    }

    /// A new session identifier.
    pub fn generate_id(&mut self) -> (id: SessionId)
        requires
            old(self).wf(),
            old(self)@.next_id < u64::MAX,
        ensures
            final(self).wf(),
            id@ == "pty-"@ + text::decimal(old(self)@.next_id as nat),
            final(self)@ == (ManagerView {
                next_id: (old(self)@.next_id + 1) as u64,
                ..old(self)@
            }),
    {
        let id = numbered("pty-", self.next_id);
        self.next_id = self.next_id + 1;
        id
    }

    fn find_id(&self, id: &[char]) -> (at: Option<usize>)
        ensures
            match at {
                Some(i) => self@.place_of_id(id@) == Some(i as int) && i < self.sessions@.len(),
                None => self@.place_of_id(id@) is None,
            },
    {
        let ghost test = |e: EntryView<B>| e.key == id@;
        let mut i: usize = 0;
        while i < self.sessions.len()
            invariant
                i <= self.sessions.len(),
                test == (|e: EntryView<B>| e.key == id@),
                forall|k: int| 0 <= k < i ==> (#[trigger] self@.sessions[k]).key != id@,
            decreases self.sessions.len() - i,
        {
            assert(self@.sessions[i as int].key == self.sessions@[i as int].key@);
            if chars_equal(id, self.sessions[i].key.as_str()) {
                proof {
                    text::lemma_first_index_at(self@.sessions, test, i as int);
                }
                return Some(i);
            }
            i += 1;
        }
        proof {
            text::lemma_first_index_none(self@.sessions, test);
        }
        None
    }

    fn find_name(&self, name: &[char]) -> (at: Option<usize>)
        ensures
            match at {
                Some(i) => self@.place_of_name(name@) == Some(i as int) && i < self.sessions@.len(),
                None => self@.place_of_name(name@) is None,
            },
    {
        let ghost test = |e: EntryView<B>| e.session.name == Some(name@);
        let mut i: usize = 0;
        while i < self.sessions.len()
            invariant
                i <= self.sessions.len(),
                test == (|e: EntryView<B>| e.session.name == Some(name@)),
                forall|k: int|
                    0 <= k < i ==> (#[trigger] self@.sessions[k]).session.name != Some(name@),
            decreases self.sessions.len() - i,
        {
            assert(self@.sessions[i as int].session == self.sessions@[i as int].session@);
            let same: bool = match self.sessions[i].session.name() {
                Some(n) => chars_equal(name, n.as_str()),
                None => false,
            };
            if same {
                proof {
                    text::lemma_first_index_at(self@.sessions, test, i as int);
                }
                return Some(i);
            }
            i += 1;
        }
        proof {
            text::lemma_first_index_none(self@.sessions, test);
        }
        None
    }

    fn find(&self, id: &str) -> (at: Option<usize>)
        ensures
            match at {
                Some(i) => self@.place(id@) == Some(i as int) && i < self.sessions@.len(),
                None => self@.place(id@) is None,
            },
    {
        let wanted = to_chars(id);
        match self.find_id(&wanted) {
            Some(i) => Some(i),
            None => self.find_name(&wanted),
        }
    }

    /// Adds a session under its identifier and returns that; fails where the limit is reached.
    pub fn add_session(&mut self, session: PtySession<B>) -> (result: Result<SessionId, PtyError>)
        requires
            old(self).wf(),
            session.wf(),
        ensures
            final(self).wf(),
            match result {
                Ok(id) => {
                    &&& old(self)@.sessions.len() < old(self)@.max
                    &&& id@ == session@.id
                    &&& final(self)@ == old(self)@.with_added(session@)
                },
                Err(e) => {
                    &&& old(self)@.sessions.len() >= old(self)@.max
                    &&& e == PtyError::MaxSessionsReached(old(self)@.max)
                    &&& final(self)@ == old(self)@
                },
            },
    {
        if self.sessions.len() >= self.max_sessions {
            return Err(PtyError::MaxSessionsReached(self.max_sessions));
        }
        let id = session.id();
        let wanted = to_chars(id.as_str());
        let ghost view = session@;
        let ghost before = self@;
        match self.find_id(&wanted) {
            Some(i) => {
                let ghost entries = self.sessions@;
                self.sessions[i].session = session;
                proof {
                    assert forall|k: int| 0 <= k < entries.len() && k != i implies (
                    #[trigger] self.sessions@[k]) == entries[k] by {}
                    assert(self@.sessions =~= before.with_session(i as int, view).sessions);
                    lemma_change_keeps_wf(before, i as int, view);
                }
            },
            None => {
                self.sessions.push(Entry { key: id.clone(), session });
                proof {
                    assert(self@.sessions =~= before.sessions.push(
                        EntryView { key: id@, session: view },
                    ));
                    text::lemma_first_index(
                        before.sessions,
                        |e: EntryView<B>| e.key == view.id,
                    );
                    assert forall|i: int, j: int| 0 <= i < j < self@.sessions.len() implies (
                    #[trigger] self@.sessions[i]).key != (#[trigger] self@.sessions[j]).key by {
                        assert(self@.sessions[i] == before.sessions[i]);
                        if j < before.sessions.len() {
                            assert(self@.sessions[j] == before.sessions[j]);
                        } else {
                            assert(!(|e: EntryView<B>| e.key == view.id)(before.sessions[i]));
                        }
                    }
                    assert forall|i: int| 0 <= i < self@.sessions.len() implies (
                    #[trigger] self@.sessions[i]).session.screen.wf() by {
                        if i < before.sessions.len() {
                            assert(self@.sessions[i] == before.sessions[i]);
                        }
                    }
                }
            },
        }
        Ok(id)
    }

    /// Adds a session with a name that no session has yet.
    pub fn add_session_with_name(&mut self, session: PtySession<B>, name: String) -> (result: Result<
        SessionId,
        PtyError,
    >)
        requires
            old(self).wf(),
            session.wf(),
        ensures
            final(self).wf(),
            match result {
                Ok(id) => {
                    &&& old(self)@.place_of_name(name@) is None
                    &&& old(self)@.sessions.len() < old(self)@.max
                    &&& id@ == session@.id
                    &&& final(self)@ == old(self)@.with_added(
                        SessionView { name: Some(name@), ..session@ },
                    )
                },
                Err(PtyError::DuplicateName(n)) => {
                    &&& old(self)@.place_of_name(name@) is Some
                    &&& n@ == name@
                    &&& final(self)@ == old(self)@
                },
                Err(e) => {
                    &&& old(self)@.place_of_name(name@) is None
                    &&& old(self)@.sessions.len() >= old(self)@.max
                    &&& e == PtyError::MaxSessionsReached(old(self)@.max)
                    &&& final(self)@ == old(self)@
                },
            },
    {
        let wanted = to_chars(name.as_str());
        match self.find_name(&wanted) {
            Some(_) => {
                return Err(PtyError::DuplicateName(name));
            },
            None => {},
        }
        let mut named = session;
        named.set_name(name);
        self.add_session(named)
    }

    /// The identifier of the session that has the given identifier or name.
    pub fn resolve_id(&self, id: &str) -> (result: Result<SessionId, PtyError>)
        requires
            self.wf(),
        ensures
            match result {
                Ok(found) => self@.place(id@) is Some && found@
                    == self@.sessions[self@.place(id@)->0].key,
                Err(PtyError::SessionNotFound(name)) => self@.place(id@) is None && name@ == id@,
                Err(_) => false,
            },
    {
        match self.find(id) {
            Some(i) => {
                assert(self@.sessions[i as int].key == self.sessions@[i as int].key@);
                Ok(self.sessions[i].key.clone())
            },
            None => Err(PtyError::SessionNotFound(id.to_string())),
        }
    }

    /// The session with an identifier or a name.
    pub fn get(&self, id: &str) -> (result: Result<&PtySession<B>, PtyError>)
        requires
            self.wf(),
        ensures
            match result {
                Ok(s) => self@.place(id@) is Some && s@ == self@.sessions[self@.place(
                    id@,
                )->0].session && s.wf(),
                Err(PtyError::SessionNotFound(name)) => self@.place(id@) is None && name@ == id@,
                Err(_) => false,
            },
    {
        match self.find(id) {
            Some(i) => {
                assert(self@.sessions[i as int].session == self.sessions@[i as int].session@);
                Ok(&self.sessions[i].session)
            },
            None => Err(PtyError::SessionNotFound(id.to_string())),
        }
    }

    /// The session with an identifier or a name, to be changed.
    pub fn get_mut(&mut self, id: &str) -> (result: Result<&mut PtySession<B>, PtyError>)
        requires
            old(self).wf(),
        ensures
            match result {
                Ok(s) => {
                    &&& old(self)@.place(id@) is Some
                    &&& s@ == old(self)@.sessions[old(self)@.place(id@)->0].session
                    &&& s.wf()
                    &&& final(self)@ =~= old(self)@.with_session(
                        old(self)@.place(id@)->0,
                        (*final(s))@,
                    )
                },
                Err(PtyError::SessionNotFound(name)) => old(self)@.place(id@) is None && name@
                    == id@ && final(self)@ == old(self)@,
                Err(_) => false,
            },
    {
        match self.find(id) {
            Some(i) => {
                assert(self@.sessions[i as int].session == self.sessions@[i as int].session@);
                Ok(&mut self.sessions[i].session)
            },
            None => Err(PtyError::SessionNotFound(id.to_string())),
        }
    }

    /// Kills the process of the session with an identifier, where it runs, and removes the session.
    /// Where it cannot be killed, it stays.
    pub fn kill_session(&mut self, id: &str) -> (result: Result<(), PtyError>)
        requires
            old(self).wf(),
        ensures
            final(self).wf(),
            match old(self)@.place_of_id(id@) {
                None => result matches Err(PtyError::SessionNotFound(name)) && name@ == id@
                    && final(self)@ == old(self)@,
                Some(i) => killed_at(old(self)@, i, final(self)@, result),
            },
    {
        let wanted = to_chars(id);
        let i: usize = match self.find_id(&wanted) {
            Some(i) => i,
            None => {
                return Err(PtyError::SessionNotFound(id.to_string()));
            },
        };
        let ghost before = self@;
        let ghost entries = self.sessions@;
        proof {
            text::lemma_first_index(before.sessions, |e: EntryView<B>| e.key == id@);
            assert(before.sessions[i as int].session == entries[i as int].session@);
        }
        if *self.sessions[i].session.status() == SessionStatus::Running {
            let killed = self.sessions[i].session.kill();
            let ghost after = self.sessions@[i as int].session@;
            proof {
                assert forall|k: int| 0 <= k < entries.len() && k != i implies (
                #[trigger] self.sessions@[k]) == entries[k] by {}
                assert(self@.sessions =~= before.with_session(i as int, after).sessions);
                lemma_change_keeps_wf(before, i as int, after);
                assert(before.sessions[i as int].session.killed(after, killed));
            }
            if killed.is_err() {
                assert(self@ == before.with_session(i as int, after));
                return killed;
            }
        }
        let ghost now = self@;
        let _removed = self.sessions.remove(i);
        proof {
            assert(self@.sessions =~= now.sessions.remove(i as int));
            assert(self@.sessions =~= before.sessions.remove(i as int));
            assert forall|a: int| 0 <= a < self@.sessions.len() implies (
            #[trigger] self@.sessions[a]).session.screen.wf() by {
                assert(self@.sessions[a] == before.sessions[if a < i { a } else { a + 1 }]);
            }
            assert forall|a: int, b: int| 0 <= a < b < self@.sessions.len() implies (
            #[trigger] self@.sessions[a]).key != (#[trigger] self@.sessions[b]).key by {
                assert(self@.sessions[a] == before.sessions[if a < i { a } else { a + 1 }]);
                assert(self@.sessions[b] == before.sessions[if b < i { b } else { b + 1 }]);
            }
        }
        Ok(())
    }

    /// What is known about all sessions, ordered by the numbers in their identifiers.
    pub fn list(&self) -> (list: Vec<SessionMetadata>)
        ensures
            meta_views(list@) == self@.listing(),
    {
        let mut list: Vec<SessionMetadata> = Vec::new();
        let ghost all = self@.sessions.map_values(|e: EntryView<B>| e.session.meta());
        let mut i: usize = 0;
        assert(all.take(0) =~= Seq::empty());
        assert(meta_views(list@) =~= Seq::empty());
        while i < self.sessions.len()
            invariant
                i <= self.sessions.len(),
                all == self@.sessions.map_values(|e: EntryView<B>| e.session.meta()),
                meta_views(list@) == by_number(all.take(i as int)),
            decreases self.sessions.len() - i,
        {
            let m = self.sessions[i].session.metadata();
            let n = number_of(m.id.as_str());
            let ghost front = meta_views(list@);
            let ghost view = m@;
            proof {
                assert(self@.sessions[i as int].session == self.sessions@[i as int].session@);
                assert(all[i as int] == view);
                assert(all.take(i + 1).drop_last() =~= all.take(i as int));
                assert(front.skip(0) =~= front);
            }
            let mut at: usize = 0;
            while at < list.len() && number_of(list[at].id.as_str()) <= n
                invariant
                    at <= list.len(),
                    front == meta_views(list@),
                    n == session_number(view.id),
                    not_larger(front, n as int) == at + not_larger(
                        front.skip(at as int),
                        n as int,
                    ),
                decreases list.len() - at,
            {
                assert(front[at as int] == list@[at as int]@);
                assert(front.skip(at as int).skip(1) =~= front.skip(at + 1));
                at += 1;
            }
            proof {
                if at < list.len() {
                    assert(front[at as int] == list@[at as int]@);
                    assert(front.skip(at as int)[0] == front[at as int]);
                }
                assert(not_larger(front, n as int) == at);
            }
            list.insert(at, m);
            assert(meta_views(list@) =~= front.insert(at as int, view));
            i += 1;
        }
        assert(all.take(i as int) =~= all);
        list
    }

    /// The number of sessions.
    pub fn session_count(&self) -> (n: usize)
        ensures
            n == self@.sessions.len(),
    {
        self.sessions.len()
    }

    /// Whether there is a session with the identifier.
    pub fn has_session(&self, id: &str) -> (b: bool)
        ensures
            b == (self@.place_of_id(id@) is Some),
    {
        let wanted = to_chars(id);
        self.find_id(&wanted).is_some()
    }

    /// Reads the output of all sessions, one after the other, up to the first error.
    pub fn pump_all(&mut self) -> (result: Result<(), PtyError>)
        requires
            old(self).wf(),
        ensures
            final(self).wf(),
            match result {
                Ok(()) => pumped_up_to(old(self)@, final(self)@, old(self)@.sessions.len() as int),
                Err(e) => exists|k: int|
                    0 <= k < old(self)@.sessions.len() && #[trigger] pumped_up_to_error(
                        old(self)@,
                        final(self)@,
                        k,
                        e,
                    ),
            },
    {
        let ghost start = self@;
        let mut i: usize = 0;
        while i < self.sessions.len()
            invariant
                i <= self.sessions.len(),
                self.sessions.len() == start.sessions.len(),
                start == old(self)@,
                self.wf(),
                pumped_up_to(start, self@, i as int),
            decreases self.sessions.len() - i,
        {
            let ghost before = self@;
            let ghost entries = self.sessions@;
            assert(before.sessions[i as int].session == entries[i as int].session@);
            let pumped = self.sessions[i].session.pump();
            let ghost after = self.sessions@[i as int].session@;
            proof {
                assert forall|k: int| 0 <= k < entries.len() && k != i implies (
                #[trigger] self.sessions@[k]) == entries[k] by {}
                assert(self@.sessions =~= before.with_session(i as int, after).sessions);
                lemma_change_keeps_wf(before, i as int, after);
            }
            match pumped {
                Ok(_) => {
                    assert(pumped_ok(start.sessions[i as int].session, after));
                },
                Err(e) => {
                    assert(pumped_up_to_error(start, self@, i as int, e));
                    return Err(e);
                },
            }
            i += 1;
        }
        Ok(())
    }

    /// How many sessions there may be.
    pub fn max_sessions(&self) -> (n: usize)
        ensures
            n == self@.max,
    {
        self.max_sessions
    }

    /// The number of the next identifier.
    pub fn next_id(&self) -> (n: u64)
        ensures
            n == self@.next_id,
    {
        self.next_id
    }
}

/// How killing the session at a place turns out: where it runs and cannot be killed it stays, else
/// it is removed.
pub open spec fn killed_at<B: PtyBackend>(
    before: ManagerView<B>,
    i: int,
    after: ManagerView<B>,
    result: Result<(), PtyError>,
) -> bool {
    let s = before.sessions[i].session;
    if s.status != SessionStatus::Running {
        result is Ok && after == (ManagerView { sessions: before.sessions.remove(i), ..before })
    } else {
        exists|t: SessionView<B>, killed: Result<(), PtyError>|
            #[trigger] s.killed(t, killed) && (match killed {
                Ok(_) => result is Ok && after == (ManagerView {
                    sessions: before.sessions.remove(i),
                    ..before
                }),
                Err(e) => result == Err::<(), PtyError>(e) && after == before.with_session(i, t),
            })
    }
}

/// A session was read without an error.
pub open spec fn pumped_ok<B: PtyBackend>(before: SessionView<B>, after: SessionView<B>) -> bool {
    exists|data: Seq<u8>| #[trigger] before.pumped(after, Ok(data))
}

/// The first `k` sessions were read without an error, and nothing else changed.
pub open spec fn pumped_up_to<B: PtyBackend>(
    before: ManagerView<B>,
    after: ManagerView<B>,
    k: int,
) -> bool {
    &&& after.max == before.max
    &&& after.next_id == before.next_id
    &&& after.sessions.len() == before.sessions.len()
    &&& forall|i: int|
        0 <= i < before.sessions.len() ==> (#[trigger] after.sessions[i]).key
            == before.sessions[i].key
    &&& forall|i: int|
        0 <= i < k ==> pumped_ok(
            before.sessions[i].session,
            (#[trigger] after.sessions[i]).session,
        )
    &&& forall|i: int|
        k <= i < before.sessions.len() ==> (#[trigger] after.sessions[i]) == before.sessions[i]
}

/// The first `k` sessions were read without an error, and the next one with an error.
pub open spec fn pumped_up_to_error<B: PtyBackend>(
    before: ManagerView<B>,
    after: ManagerView<B>,
    k: int,
    e: PtyError,
) -> bool {
    &&& before.sessions[k].session.pumped(after.sessions[k].session, Err(e))
    &&& pumped_up_to(
        before,
        ManagerView {
            sessions: after.sessions.update(k, before.sessions[k]),
            ..after
        },
        k,
    )
    &&& after.sessions.len() == before.sessions.len()
    &&& after.sessions[k].key == before.sessions[k].key
}

impl<B: PtyBackend> Default for SessionManager<B> {
    fn default() -> (m: Self)
        ensures
            m.wf(),
            m@ == (ManagerView::<B> {
                sessions: Seq::empty(),
                max: DEFAULT_MAX_SESSIONS,
                next_id: 1,
            }),
    {
        SessionManager::new()
    }
}

pub proof fn lemma_change_keeps_wf<B: PtyBackend>(m: ManagerView<B>, i: int, s: SessionView<B>)
    requires
        m.wf(),
        0 <= i < m.sessions.len(),
        s.screen.wf(),
    ensures
        m.with_session(i, s).wf(),
{
    let after = m.with_session(i, s);
    assert forall|a: int, b: int| 0 <= a < b < after.sessions.len() implies (
    #[trigger] after.sessions[a]).key != (#[trigger] after.sessions[b]).key by {
        assert(after.sessions[a].key == m.sessions[a].key);
        assert(after.sessions[b].key == m.sessions[b].key);
    }
}

/// A session that was added is found under its identifier, and all others are found as before.
pub proof fn law_added_sessions_are_found<B: PtyBackend>(
    m: ManagerView<B>,
    s: SessionView<B>,
    other: Seq<char>,
)
    requires
        m.wf(),
        other != s.id,
    ensures
        m.with_added(s).place(s.id) matches Some(i) && m.with_added(s).sessions[i].session == s,
        m.place_of_id(other) matches Some(j) ==> m.with_added(s).place(other) == Some(j)
            && m.with_added(s).sessions[j] == m.sessions[j],
{
    let after = m.with_added(s);
    let is_it = |e: EntryView<B>| e.key == s.id;
    let is_other = |e: EntryView<B>| e.key == other;
    text::lemma_first_index(m.sessions, is_it);
    text::lemma_first_index(m.sessions, is_other);
    let at = match m.place_of_id(s.id) {
        Some(i) => i,
        None => m.sessions.len() as int,
    };
    assert forall|k: int| 0 <= k < at implies !is_it(after.sessions[k]) by {
        assert(after.sessions[k] == m.sessions[k]);
        assert(!is_it(m.sessions[k]));
    }
    text::lemma_first_index_at(after.sessions, is_it, at);
    if let Some(j) = m.place_of_id(other) {
        assert(after.sessions[j] == m.sessions[j]);
        assert forall|k: int| 0 <= k < j implies !is_other(after.sessions[k]) by {
            assert(!is_other(m.sessions[k]));
            assert(k == at || after.sessions[k] == m.sessions[k]);
        }
        text::lemma_first_index_at(after.sessions, is_other, j);
    }
}

/// A session that was added with a name that was free is found under the name.
pub proof fn law_named_sessions_are_found<B: PtyBackend>(
    m: ManagerView<B>,
    s: SessionView<B>,
    name: Seq<char>,
)
    requires
        m.wf(),
        m.place(name) is None,
        s.name == Some(name),
    ensures
        m.with_added(s).place(name) matches Some(i) && m.with_added(s).sessions[i].session == s,
{
    let after = m.with_added(s);
    let has_id = |e: EntryView<B>| e.key == name;
    let has_name = |e: EntryView<B>| e.session.name == Some(name);
    let is_it = |e: EntryView<B>| e.key == s.id;
    text::lemma_first_index(m.sessions, has_id);
    text::lemma_first_index(m.sessions, has_name);
    text::lemma_first_index(m.sessions, is_it);
    let at = match m.place_of_id(s.id) {
        Some(i) => i,
        None => m.sessions.len() as int,
    };
    assert forall|k: int| 0 <= k < at implies !has_id(after.sessions[k]) && !has_name(
        after.sessions[k],
    ) by {
        assert(after.sessions[k] == m.sessions[k]);
        assert(!has_id(m.sessions[k]) && !has_name(m.sessions[k]));
    }
    text::lemma_first_index_at(after.sessions, has_name, at);
    if s.id == name {
        text::lemma_first_index_at(after.sessions, has_id, at);
    } else {
        assert forall|k: int| 0 <= k < after.sessions.len() implies !has_id(after.sessions[k]) by {
            if k < m.sessions.len() {
                assert(!has_id(m.sessions[k]));
                assert(after.sessions[k].key == m.sessions[k].key);
            }
        }
        text::lemma_first_index_none(after.sessions, has_id);
    }
}

/// A session that was killed is no longer found under its identifier.
pub proof fn law_killed_sessions_are_gone<B: PtyBackend>(
    m: ManagerView<B>,
    i: int,
    after: ManagerView<B>,
)
    requires
        m.wf(),
        0 <= i < m.sessions.len(),
        killed_at(m, i, after, Ok(())),
    ensures
        after.place_of_id(m.sessions[i].key) is None,
        after.sessions.len() == m.sessions.len() - 1,
{
    let id = m.sessions[i].key;
    let is_it = |e: EntryView<B>| e.key == id;
    assert forall|k: int| 0 <= k < after.sessions.len() implies !is_it(after.sessions[k]) by {
        assert(after.sessions[k] == m.sessions[if k < i { k } else { k + 1 }]);
    }
    text::lemma_first_index_none(after.sessions, is_it);
}

/// A session is found under its identifier, whatever names there are; under a name that is no
/// identifier the first session with that name is found; and under anything else none is.
pub proof fn law_identifiers_come_before_names<B: PtyBackend>(m: ManagerView<B>, id: Seq<char>, i: int)
    requires
        m.wf(),
        0 <= i < m.sessions.len(),
    ensures
        m.sessions[i].key == id ==> m.place(id) == Some(i),
        (forall|k: int| 0 <= k < m.sessions.len() ==> (#[trigger] m.sessions[k]).key != id)
            && m.sessions[i].session.name == Some(id) && (forall|k: int|
            0 <= k < i ==> (#[trigger] m.sessions[k]).session.name != Some(id)) ==> m.place(id)
            == Some(i),
        (forall|k: int|
            0 <= k < m.sessions.len() ==> (#[trigger] m.sessions[k]).key != id
                && m.sessions[k].session.name != Some(id)) ==> m.place(id) is None,
{
    let has_id = |e: EntryView<B>| e.key == id;
    let has_name = |e: EntryView<B>| e.session.name == Some(id);
    text::lemma_first_index(m.sessions, has_id);
    text::lemma_first_index(m.sessions, has_name);
    if m.sessions[i].key == id {
        assert forall|k: int| 0 <= k < i implies !has_id(m.sessions[k]) by {
            assert(m.sessions[k].key != m.sessions[i].key);
        }
        text::lemma_first_index_at(m.sessions, has_id, i);
    }
}

/// A session is numbered by the number in its identifier, where that is one.
pub proof fn law_identifiers_are_numbered(n: nat)
    requires
        n <= u64::MAX,
    ensures
        session_number(seq!['p', 't', 'y', '-'] + text::decimal(n)) == n,
        session_number(text::decimal(n)) == 0,
{
    reveal_strlit("pty-");
    text::law_decimal_reads_back(n);
    let d = text::decimal(n);
    let id = seq!['p', 't', 'y', '-'] + d;
    assert("pty-"@ =~= seq!['p', 't', 'y', '-']);
    assert(id.skip(4) =~= d);
    assert(id.take(4) =~= "pty-"@);
    assert(text::is_digit(d[0]));
    assert(!text::has_prefix(d, "pty-"@)) by {
        if d.len() >= 4 {
            assert(d.take(4)[0] == d[0]);
        }
    }
}

} // verus!
