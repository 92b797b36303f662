//! The sessions that logins have left behind, one for each server.

use vstd::prelude::*;

verus! {

/// What a login at one server has left behind.
#[derive(Debug, PartialEq, Eq)]
pub struct Session {
    /// The base URL of the server.
    pub server_url: String,
    /// The token that the server has issued.
    pub token: String,
    /// When the session was stored.
    pub created_at: u64,
}

impl Clone for Session {
    fn clone(&self) -> (r: Self)
        ensures
            r == *self,
    {
        Session {
            server_url: self.server_url.clone(),
            token: self.token.clone(),
            created_at: self.created_at,
        }
    }
}

/// A session as text.
pub struct SessionView {
    pub server_url: Seq<char>,
    pub token: Seq<char>,
    pub created_at: u64,
}

impl View for Session {
    type V = SessionView;

    open spec fn view(&self) -> SessionView {
        SessionView {
            server_url: self.server_url@,
            token: self.token@,
            created_at: self.created_at,
        }
    }
}

/// The sessions as text.
pub open spec fn views(sessions: Seq<Session>) -> Seq<SessionView> {
    Seq::new(sessions.len(), |i: int| sessions[i]@)
}

/// What is stored after each of `sessions` has been stored in turn. Of two
/// sessions for one server the later one stays.
pub open spec fn as_map(sessions: Seq<SessionView>) -> Map<Seq<char>, Stored>
    decreases sessions.len(),
{
    if sessions.len() == 0 {
        Map::empty()
    } else {
        as_map(sessions.drop_last()).insert(
            sessions.last().server_url,
            Stored { token: sessions.last().token, created_at: sessions.last().created_at },
        )
    }
}

/// What is stored for one server.
pub struct Stored {
    pub token: Seq<char>,
    pub created_at: u64,
}

/// The token stored for the server `url` in `sessions`, if there is one.
pub open spec fn loaded(sessions: Map<Seq<char>, Stored>, url: Seq<char>) -> Option<Seq<char>> {
    if sessions.contains_key(url) {
        Some(sessions[url].token)
    } else {
        None
    }
}

/// The sessions after `token` is stored for the server `url` at the time
/// `now`.
pub open spec fn saved(
    sessions: Map<Seq<char>, Stored>,
    url: Seq<char>,
    token: Seq<char>,
    now: u64,
) -> Map<Seq<char>, Stored> {
    sessions.insert(url, Stored { token, created_at: now })
}

/// The sessions after that of the server `url` is removed.
pub open spec fn cleared(sessions: Map<Seq<char>, Stored>, url: Seq<char>) -> Map<
    Seq<char>,
    Stored,
> {
    sessions.remove(url)
}

/// Whether a response with this status rejects the credential of the
/// request: the request was unauthorized or forbidden.
pub open spec fn rejects(status: u16) -> bool {
    status == 401 || status == 403
}

/// A token that is stored for a server is the one that is loaded for it.
pub proof fn lemma_save_then_load(
    sessions: Map<Seq<char>, Stored>,
    url: Seq<char>,
    token: Seq<char>,
    now: u64,
)
    ensures
        loaded(saved(sessions, url, token, now), url) == Some(token),
{
}

/// After a server's session is cleared, nothing is loaded for it.
pub proof fn lemma_clear_then_load(sessions: Map<Seq<char>, Stored>, url: Seq<char>)
    ensures
        loaded(cleared(sessions, url), url) is None,
{
}

/// Nothing is loaded for a server for which nothing was ever stored.
pub proof fn lemma_never_saved(url: Seq<char>)
    ensures
        loaded(Map::<Seq<char>, Stored>::empty(), url) is None,
{
}

/// Clearing a server without a session changes nothing, so clearing twice
/// is clearing once.
pub proof fn lemma_clear_idempotent(sessions: Map<Seq<char>, Stored>, url: Seq<char>)
    ensures
        !sessions.contains_key(url) ==> cleared(sessions, url) == sessions,
        cleared(cleared(sessions, url), url) == cleared(sessions, url),
{
    if !sessions.contains_key(url) {
        assert(cleared(sessions, url) =~= sessions);
    }
    assert(cleared(cleared(sessions, url), url) =~= cleared(sessions, url));
}

/// Storing or clearing the session of one server leaves what is loaded for
/// every other server as it was.
pub proof fn lemma_servers_do_not_interfere(
    sessions: Map<Seq<char>, Stored>,
    url: Seq<char>,
    token: Seq<char>,
    now: u64,
    other: Seq<char>,
)
    requires
        other != url,
    ensures
        loaded(saved(sessions, url, token, now), other) == loaded(sessions, other),
        loaded(cleared(sessions, url), other) == loaded(sessions, other),
{
}

/// The sessions of all servers. There is at most one session for a server,
/// and the sessions of different servers do not touch each other.
pub struct SessionStore {
    sessions: Vec<Session>,
    now: u64,
}

impl View for SessionStore {
    type V = Map<Seq<char>, Stored>;

    /// The session of each server that has one, by the server's URL.
    closed spec fn view(&self) -> Map<Seq<char>, Stored> {
        Map::new(
            |url: Seq<char>| Self::stored(self.sessions@, url) is Some,
            |url: Seq<char>| Self::stored(self.sessions@, url)->0,
        )
    }
}

impl SessionStore {
    /// The time that new sessions are stamped with.
    pub closed spec fn now(&self) -> u64 {
        self.now
    }

    /// Where in `sessions` the session of the server `url` is.
    spec fn position(sessions: Seq<Session>, url: Seq<char>) -> Option<int> {
        if exists|i: int| 0 <= i < sessions.len() && sessions[i].server_url@ == url {
            Some(choose|i: int| 0 <= i < sessions.len() && sessions[i].server_url@ == url)
        } else {
            None
        }
    }

    /// No server has two sessions.
    spec fn distinct(sessions: Seq<Session>) -> bool {
        forall|i: int, j: int|
            0 <= i < j < sessions.len() ==> sessions[i].server_url@ != sessions[j].server_url@
    }

    #[verifier::type_invariant]
    spec fn inv(&self) -> bool {
        Self::distinct(self.sessions@)
    }

    /// What is stored for the server `url` in `sessions`.
    spec fn stored(sessions: Seq<Session>, url: Seq<char>) -> Option<Stored> {
        match Self::position(sessions, url) {
            Some(i) => Some(Stored { token: sessions[i].token@, created_at: sessions[i].created_at }),
            None => None,
        }
    }

    /// Among distinct sessions, the session at a place is the one stored
    /// for its server.
    proof fn lemma_stored_at(sessions: Seq<Session>, i: int)
        requires
            Self::distinct(sessions),
            0 <= i < sessions.len(),
        ensures
            Self::position(sessions, sessions[i].server_url@) == Some(i),
            Self::stored(sessions, sessions[i].server_url@) == Some(
                Stored { token: sessions[i].token@, created_at: sessions[i].created_at },
            ),
    {
    }

    /// A server that is stored for has its session at some place.
    proof fn lemma_stored_somewhere(sessions: Seq<Session>, url: Seq<char>)
        requires
            Self::stored(sessions, url) is Some,
        ensures
            0 <= Self::position(sessions, url)->0 < sessions.len(),
            sessions[Self::position(sessions, url)->0].server_url@ == url,
    {
    }

    /// How storing for one server changes what is stored for any server.
    proof fn lemma_stored_after_save(
        before: Seq<Session>,
        after: Seq<Session>,
        found: Option<int>,
        session: Session,
        url: Seq<char>,
    )
        requires
            Self::distinct(before),
            found == Self::position(before, session.server_url@),
            after == match found {
                Some(i) => before.update(i, session),
                None => before.push(session),
            },
        ensures
            Self::distinct(after),
            Self::stored(after, url) == if url == session.server_url@ {
                Some(Stored { token: session.token@, created_at: session.created_at })
            } else {
                Self::stored(before, url)
            },
    {
        let place = match found {
            Some(i) => i,
            None => before.len() as int,
        };
        if found is Some {
            Self::lemma_stored_somewhere(before, session.server_url@);
        }
        assert(after[place] == session);
        assert forall|j: int| 0 <= j < before.len() && j != place implies after[j] == before[j] by {}
        assert(Self::distinct(after)) by {
            assert forall|i: int, j: int| 0 <= i < j < after.len() implies after[i].server_url@
                != after[j].server_url@ by {
                if i != place && j != place {
                    assert(after[i] == before[i] && after[j] == before[j]);
                } else {
                    let other = if i == place { j } else { i };
                    assert(after[other] == before[other]);
                    if found is Some {
                        assert(before[place].server_url@ == session.server_url@);
                    } else {
                        assert(before[other].server_url@ != session.server_url@);
                    }
                }
            }
        }
        if url == session.server_url@ {
            Self::lemma_stored_at(after, place);
        } else if Self::stored(before, url) is Some {
            Self::lemma_stored_somewhere(before, url);
            let k = Self::position(before, url)->0;
            assert(after[k] == before[k]);
            Self::lemma_stored_at(before, k);
            Self::lemma_stored_at(after, k);
        } else {
            if Self::stored(after, url) is Some {
                Self::lemma_stored_somewhere(after, url);
                let k = Self::position(after, url)->0;
                assert(after[k] == before[k]);
                assert(before[k].server_url@ == url);
            }
        }
    }

    /// How clearing one server changes what is stored for any server.
    proof fn lemma_stored_after_clear(
        before: Seq<Session>,
        after: Seq<Session>,
        found: Option<int>,
        cleared: Seq<char>,
        url: Seq<char>,
    )
        requires
            Self::distinct(before),
            found == Self::position(before, cleared),
            after == match found {
                Some(i) => before.remove(i),
                None => before,
            },
        ensures
            Self::distinct(after),
            Self::stored(after, url) == if url == cleared {
                None
            } else {
                Self::stored(before, url)
            },
    {
        match found {
            Some(place) => {
                Self::lemma_stored_somewhere(before, cleared);
                assert forall|j: int| 0 <= j < after.len() implies after[j] == before[if j
                    < place {
                    j
                } else {
                    j + 1
                }] by {}
                if Self::stored(after, url) is Some {
                    Self::lemma_stored_somewhere(after, url);
                    let k = Self::position(after, url)->0;
                    let k_before = if k < place { k } else { k + 1 };
                    assert(after[k] == before[k_before]);
                    Self::lemma_stored_at(before, k_before);
                    Self::lemma_stored_at(before, place);
                    Self::lemma_stored_at(after, k);
                } else if url != cleared && Self::stored(before, url) is Some {
                    Self::lemma_stored_somewhere(before, url);
                    let k = Self::position(before, url)->0;
                    let k_after = if k < place { k } else { k - 1 };
                    assert(after[k_after] == before[k]);
                    Self::lemma_stored_at(after, k_after);
                }
            },
            None => {},
        }
    }

    /// A store without sessions, at the time `now`.
    pub fn new(now: u64) -> (store: SessionStore)
        ensures
            store@ == Map::<Seq<char>, Stored>::empty(),
            store.now() == now,
    {
        let store = SessionStore { sessions: Vec::new(), now };
        assert(store@ =~= Map::<Seq<char>, Stored>::empty());
        store
    }

    fn find(&self, server_url: &String) -> (r: Option<usize>)
        ensures
            match r {
                Some(i) => i < self.sessions@.len() && self.sessions@[i as int].server_url@
                    == server_url@ && Self::position(self.sessions@, server_url@) == Some(i as int),
                None => Self::position(self.sessions@, server_url@) is None,
            },
    {
        let mut i: usize = 0;
        while i < self.sessions.len()
            invariant
                i <= self.sessions@.len(),
                forall|j: int| 0 <= j < i ==> self.sessions@[j].server_url@ != server_url@,
            decreases self.sessions@.len() - i,
        {
            if self.sessions[i].server_url == *server_url {
                proof {
                    use_type_invariant(self);
                    Self::lemma_stored_at(self.sessions@, i as int);
                }
                return Some(i);
            }
            i = i + 1;
        }
        None
    }

    /// Returns the token stored for the server `server_url`, if there is
    /// one.
    pub fn load(&self, server_url: &str) -> (token: Option<String>)
        ensures
            match token {
                Some(token) => loaded(self@, server_url@) == Some(token@),
                None => loaded(self@, server_url@) is None,
            },
    {
        let key = server_url.to_owned();
        match self.find(&key) {
            Some(i) => Some(self.sessions[i].token.clone()),
            None => None,
        }
    }

    /// Stores `token` for the server `server_url`, in place of the session
    /// that the server had, if it had one. No other server's session
    /// changes.
    pub fn save(&mut self, server_url: &str, token: &str)
        ensures
            final(self)@ == saved(old(self)@, server_url@, token@, old(self).now()),
            final(self).now() == old(self).now(),
    {
        let session = Session {
            server_url: server_url.to_owned(),
            token: token.to_owned(),
            created_at: self.now,
        };
        self.put(&session);
    }

    /// Removes the session of the server `server_url`. Where there is none,
    /// nothing changes.
    pub fn clear(&mut self, server_url: &str)
        ensures
            final(self)@ == cleared(old(self)@, server_url@),
            final(self).now() == old(self).now(),
    {
        proof {
            use_type_invariant(&*self);
        }
        let key = server_url.to_owned();
        let found = self.find(&key);
        let mut sessions: Vec<Session> = Vec::new();
        std::mem::swap(&mut self.sessions, &mut sessions);
        match found {
            Some(i) => {
                sessions.remove(i);
            },
            None => {},
        }
        self.sessions = sessions;
        proof {
            let at = match found {
                Some(i) => Some(i as int),
                None => None,
            };
            assert forall|url: Seq<char>|
                Self::stored(self.sessions@, url) == if url == server_url@ {
                    None
                } else {
                    Self::stored(old(self).sessions@, url)
                } by {
                Self::lemma_stored_after_clear(
                    old(self).sessions@,
                    self.sessions@,
                    at,
                    server_url@,
                    url,
                );
            }
            assert(self@ =~= old(self)@.remove(server_url@));
        }
    }

    /// Takes note of the status with which the server `server_url` has
    /// answered a request. `stored` says whether the request carried the
    /// token that is stored for the server. Where it did and the server has
    /// rejected it, the session is removed, so that the next command asks
    /// for a login. Returns whether the session was removed on that ground.
    pub fn on_response(&mut self, server_url: &str, status: u16, stored: bool) -> (invalid: bool)
        ensures
            invalid == (stored && rejects(status)),
            final(self)@ == if invalid {
                cleared(old(self)@, server_url@)
            } else {
                old(self)@
            },
            final(self).now() == old(self).now(),
    {
        if stored && (status == 401 || status == 403) {
            self.clear(server_url);
            true
        } else {
            false
        }
    }

    /// What is stored among distinct sessions is what storing them in turn
    /// gives.
    proof fn lemma_as_map(sessions: Seq<Session>)
        requires
            Self::distinct(sessions),
        ensures
            forall|url: Seq<char>|
                Self::stored(sessions, url) == if as_map(views(sessions)).contains_key(url) {
                    Some(as_map(views(sessions))[url])
                } else {
                    None
                },
        decreases sessions.len(),
    {
        if sessions.len() == 0 {
        } else {
            let init = sessions.drop_last();
            let last = sessions.last();
            Self::lemma_as_map(init);
            assert(views(sessions).drop_last() =~= views(init));
            assert(views(sessions).last() == last@);
            assert(Self::position(init, last.server_url@) is None) by {
                if Self::position(init, last.server_url@) is Some {
                    Self::lemma_stored_somewhere(init, last.server_url@);
                    let k = Self::position(init, last.server_url@)->0;
                    assert(sessions[k].server_url@ == last.server_url@);
                }
            }
            assert(sessions =~= init.push(last));
            assert forall|url: Seq<char>|
                Self::stored(sessions, url) == if as_map(views(sessions)).contains_key(url) {
                    Some(as_map(views(sessions))[url])
                } else {
                    None
                } by {
                Self::lemma_stored_after_save(init, sessions, None, last, url);
            }
        }
    }

    /// Returns the sessions of all servers, in no order that a caller could
    /// rely on. Storing them in turn gives this store again.
    pub fn sessions(&self) -> (sessions: Vec<Session>)
        ensures
            as_map(views(sessions@)) == self@,
    {
        let mut sessions: Vec<Session> = Vec::new();
        let mut i: usize = 0;
        while i < self.sessions.len()
            invariant
                i <= self.sessions@.len(),
                sessions@ == self.sessions@.take(i as int),
            decreases self.sessions@.len() - i,
        {
            sessions.push(self.sessions[i].clone());
            assert(sessions@ =~= self.sessions@.take(i + 1));
            i = i + 1;
        }
        proof {
            use_type_invariant(self);
            assert(sessions@ =~= self.sessions@);
            Self::lemma_as_map(self.sessions@);
            assert(as_map(views(sessions@)) =~= self@);
        }
        sessions
    }

    /// Makes a store at the time `now` that holds each of `sessions`, with
    /// the time at which each was stored. Of two sessions for one server
    /// the later one stays.
    pub fn restore(sessions: Vec<Session>, now: u64) -> (store: SessionStore)
        ensures
            store@ == as_map(views(sessions@)),
            store.now() == now,
    {
        let mut store = SessionStore::new(now);
        let mut i: usize = 0;
        assert(views(sessions@).take(0) =~= Seq::<SessionView>::empty());
        while i < sessions.len()
            invariant
                i <= sessions@.len(),
                store@ == as_map(views(sessions@).take(i as int)),
                store.now() == now,
            decreases sessions@.len() - i,
        {
            proof {
                let longer = views(sessions@).take(i + 1);
                assert(longer.drop_last() =~= views(sessions@).take(i as int));
                assert(longer.last() == sessions@[i as int]@);
            }
            store.put(&sessions[i]);
            i = i + 1;
        }
        assert(views(sessions@).take(i as int) =~= views(sessions@));
        store
    }

    fn put(&mut self, session: &Session)
        ensures
            final(self)@ == old(self)@.insert(
                session.server_url@,
                Stored { token: session.token@, created_at: session.created_at },
            ),
            final(self).now() == old(self).now(),
    {
        proof {
            use_type_invariant(&*self);
        }
        let found = self.find(&session.server_url);
        let mut sessions: Vec<Session> = Vec::new();
        std::mem::swap(&mut self.sessions, &mut sessions);
        match found {
            Some(i) => {
                sessions.set(i, session.clone());
            },
            None => {
                sessions.push(session.clone());
            },
        }
        self.sessions = sessions;
        proof {
            let stored = Stored { token: session.token@, created_at: session.created_at };
            let at = match found {
                Some(i) => Some(i as int),
                None => None,
            };
            assert forall|url: Seq<char>|
                Self::stored(self.sessions@, url) == if url == session.server_url@ {
                    Some(stored)
                } else {
                    Self::stored(old(self).sessions@, url)
                } by {
                Self::lemma_stored_after_save(
                    old(self).sessions@,
                    self.sessions@,
                    at,
                    *session,
                    url,
                );
            }
            assert(self@ =~= old(self)@.insert(session.server_url@, stored));
        }
    }
}

} // verus!
