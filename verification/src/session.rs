use vstd::prelude::*;

use crate::errors::ErrorKind;
use crate::user::User;

verus! {

/// How long a freshly minted session lives, in seconds.
pub const DEFAULT_TOKEN_TIMEOUT_SECONDS: i64 = 30;

/// Work factor for session tokens: low enough to mint in milliseconds,
/// collision-resistant enough for one server's session space.
pub const TOKEN_HASH_COST: u32 = 4;

/// Relies on bcrypt::hash over the user id and the current timestamp: on
/// success the token is a 60-character encoded hash. The hash also draws a
/// random salt, so nothing is promised of the token's value.
#[verifier::external_body]
fn mint_token_string(user_id: i32, now: i64, cost: u32) -> (r: Result<String, ErrorKind>)
    ensures
        r is Ok ==> r->Ok_0@.len() == 60,
        r is Err ==> r->Err_0 == ErrorKind::Internal,
{
    let input = format!("{}:{}", user_id, now);
    match bcrypt::hash(input, cost) {
        Ok(h) => Ok(h),
        Err(_) => Err(ErrorKind::Internal),
    }
}

/// An opaque session token. Equality and hashing are byte-exact.
#[derive(Debug, Eq, Hash)]
pub struct SessionToken(String);

impl SessionToken {
    /// The token's characters.
    pub closed spec fn spec_str(&self) -> Seq<char> {
        self.0@
    }

    /// Mint a token for `user_id` at time `now`.
    pub fn new(user_id: i32, now: i64) -> (r: Result<SessionToken, ErrorKind>)
        ensures
            r is Ok ==> r->Ok_0.spec_str().len() == 60,
            r is Err ==> r->Err_0 == ErrorKind::Internal,
    {
        match mint_token_string(user_id, now, TOKEN_HASH_COST) {
            Ok(s) => Ok(SessionToken(s)),
            Err(e) => Err(e),
        }
    }

    /// Wrap a token string received on the wire.
    pub fn from_string(s: String) -> (t: SessionToken)
        ensures
            t.spec_str() == s@,
    {
        SessionToken(s)
    }

    /// The token as a string slice, for the wire.
    pub fn as_str(&self) -> (s: &str)
        ensures
            s@ == self.spec_str(),
    {
        self.0.as_str()
    }
}

impl Clone for SessionToken {
    fn clone(&self) -> (r: SessionToken)
        ensures
            r == *self,
    {
        SessionToken(self.0.clone())
    }
}

impl PartialEq for SessionToken {
    fn eq(&self, other: &SessionToken) -> (r: bool) {
        self.0 == other.0
    }
}

impl vstd::std_specs::cmp::PartialEqSpecImpl for SessionToken {
    open spec fn obeys_eq_spec() -> bool {
        true
    }

    open spec fn eq_spec(&self, other: &SessionToken) -> bool {
        self.spec_str() == other.spec_str()
    }
}

/// A short-lived record granting an authenticated user the right to make
/// trade calls. Valid exactly while `now < expire_time`.
#[derive(Debug)]
pub struct Session {
    pub token: SessionToken,
    pub expire_time: i64,
    pub create_time: i64,
    pub user: User,
}

impl Session {
    /// Mint a session for `user` at time `now`, expiring `expire_duration`
    /// seconds later.
    pub fn new(user: User, user_id: i32, now: i64, expire_duration: i64) -> (r: Result<
        Session,
        ErrorKind,
    >)
        requires
            expire_duration > 0,
            now + expire_duration <= i64::MAX,
        ensures
            r is Ok ==> {
                &&& r->Ok_0.create_time == now
                &&& r->Ok_0.expire_time == now + expire_duration
                &&& r->Ok_0.user == user
                &&& r->Ok_0.token.spec_str().len() == 60
            },
            r is Err ==> r->Err_0 == ErrorKind::Internal,
    {
        let token = match SessionToken::new(user_id, now) {
            Ok(t) => t,
            Err(e) => {
                return Err(e);
            },
        };
        Ok(Session { token, expire_time: now + expire_duration, create_time: now, user })
    }

    /// Valid exactly while the expiry lies strictly in the future.
    pub open spec fn spec_is_valid(&self, now: i64) -> bool {
        now < self.expire_time
    }

    pub fn is_valid(&self, now: i64) -> (r: bool)
        ensures
            r == self.spec_is_valid(now),
    {
        now < self.expire_time
    }
}

impl Clone for Session {
    fn clone(&self) -> (r: Session)
        ensures
            r == *self,
    {
        Session {
            token: self.token.clone(),
            expire_time: self.expire_time,
            create_time: self.create_time,
            user: self.user.clone(),
        }
    }
}

/// The session store: a token-keyed map of live sessions. Lookups may run
/// concurrently with each other in the surrounding server; minting and
/// sweeping take the store exclusively, which the `&mut` receivers model.
#[derive(Debug)]
pub struct SessionManager {
    sessions: Vec<Session>,
}

impl SessionManager {
    /// The stored sessions, in insertion order.
    pub closed spec fn spec_sessions(&self) -> Seq<Session> {
        self.sessions@
    }

    /// No two stored sessions share a token.
    pub open spec fn wf(&self) -> bool {
        forall|i: int, j: int|
            0 <= i < j < self.spec_sessions().len() ==> self.spec_sessions()[i].token.spec_str()
                != self.spec_sessions()[j].token.spec_str()
    }

    pub closed spec fn spec_contains(&self, t: Seq<char>) -> bool {
        exists|i: int|
            0 <= i < self.sessions@.len() && self.sessions@[i].token.spec_str() == t
    }

    pub closed spec fn spec_index_of(&self, t: Seq<char>) -> int {
        choose|i: int| 0 <= i < self.sessions@.len() && self.sessions@[i].token.spec_str() == t
    }

    /// A store entry seen through the map view equals the stored session.
    proof fn lemma_entry(&self, i: int)
        requires
            self.wf(),
            0 <= i < self.spec_sessions().len(),
        ensures
            self@.contains_key(self.spec_sessions()[i].token.spec_str()),
            self@[self.spec_sessions()[i].token.spec_str()] == self.spec_sessions()[i],
    {
        let t = self.spec_sessions()[i].token.spec_str();
        assert(self.spec_contains(t));
        let j = self.spec_index_of(t);
        assert(0 <= j < self.sessions@.len() && self.sessions@[j].token.spec_str() == t);
        if i != j {
            assert(false);
        }
    }

    /// The stored session under a token carries that very token.
    pub proof fn lemma_key_token(&self)
        requires
            self.wf(),
        ensures
            forall|t: Seq<char>| #[trigger]
                self@.contains_key(t) ==> self@[t].token.spec_str() == t,
    {
        assert forall|t: Seq<char>| #[trigger] self@.contains_key(t) implies self@[t].token.spec_str()
            == t by {
            let j = self.spec_index_of(t);
            self.lemma_entry(j);
        }
    }

    /// An empty store.
    pub fn new() -> (m: SessionManager)
        ensures
            m.wf(),
            m@ == Map::<Seq<char>, Session>::empty(),
    {
        let m = SessionManager { sessions: Vec::new() };
        proof {
            assert(m@ =~= Map::<Seq<char>, Session>::empty());
        }
        m
    }

    /// Mint a session for `user` at time `now` and remember it. A user the
    /// store never saved has no id and cannot get a session; that invalid
    /// user surfaces as `NotFound`, the wire kind for an absent user. The
    /// only other failure is `Internal`, when token minting itself fails.
    pub fn new_session(&mut self, user: User, now: i64) -> (r: Result<Session, ErrorKind>)
        requires
            old(self).wf(),
            now + DEFAULT_TOKEN_TIMEOUT_SECONDS <= i64::MAX,
        ensures
            final(self).wf(),
            user.id is None ==> r is Err && r->Err_0 == ErrorKind::NotFound,
            user.id is Some ==> (r is Ok || r->Err_0 == ErrorKind::Internal),
            r is Err ==> final(self)@ == old(self)@,
            r is Ok ==> {
                &&& r->Ok_0.create_time == now
                &&& r->Ok_0.expire_time == now + DEFAULT_TOKEN_TIMEOUT_SECONDS
                &&& r->Ok_0.user == user
                &&& r->Ok_0.token.spec_str().len() == 60
                &&& final(self)@ == old(self)@.insert(r->Ok_0.token.spec_str(), r->Ok_0)
            },
    {
        let user_id = match user.id {
            Some(id) => id,
            None => {
                return Err(ErrorKind::NotFound);
            },
        };
        let session = match Session::new(user, user_id, now, DEFAULT_TOKEN_TIMEOUT_SECONDS) {
            Ok(s) => s,
            Err(e) => {
                return Err(e);
            },
        };
        let out = session.clone();
        self.insert_session(session);
        Ok(out)
    }

    /// The index of the stored session carrying `token`, if any.
    fn find_token(&self, token: &SessionToken) -> (r: Option<usize>)
        ensures
            r matches Some(i) ==> i < self.spec_sessions().len()
                && self.spec_sessions()[i as int].token.spec_str() == token.spec_str(),
            r is None ==> !self.spec_contains(token.spec_str()),
    {
        let n: usize = self.sessions.len();
        let mut i: usize = 0;
        loop
            invariant
                i <= n,
                n == self.spec_sessions().len(),
                forall|k: int|
                    0 <= k < i ==> self.spec_sessions()[k].token.spec_str() != token.spec_str(),
            decreases n - i,
        {
            if i == n {
                return None;
            }
            if self.sessions[i].token == *token {
                return Some(i);
            }
            i = i + 1;
        }
    }

    /// Drop the stored session carrying `token`, if any.
    fn remove_token(&mut self, token: &SessionToken)
        requires
            old(self).wf(),
        ensures
            final(self).wf(),
            final(self)@ == old(self)@.remove(token.spec_str()),
            forall|k: int|
                0 <= k < final(self).spec_sessions().len()
                    ==> final(self).spec_sessions()[k].token.spec_str() != token.spec_str(),
    {
        let found = self.find_token(token);
        match found {
            Some(i) => {
                let ghost pre = *self;
                self.sessions.remove(i);
                proof {
                    lemma_remove_keyed(pre, *self, i as int, token.spec_str());
                }
            },
            None => {
                proof {
                    assert(self@ =~= self@.remove(token.spec_str()));
                    assert forall|k: int| 0 <= k < self.spec_sessions().len() implies self
                        .spec_sessions()[k].token.spec_str() != token.spec_str() by {
                        if self.spec_sessions()[k].token.spec_str() == token.spec_str() {
                            assert(self.spec_contains(token.spec_str()));
                        }
                    }
                }
            },
        }
    }

    /// Membership lookup only: returns the stored session for `token`
    /// without checking expiry, and never changes the store.
    pub fn get_session(&self, token: &SessionToken) -> (r: Option<Session>)
        requires
            self.wf(),
        ensures
            r is Some <==> self@.contains_key(token.spec_str()),
            r matches Some(s) ==> s == self@[token.spec_str()],
    {
        match self.find_token(token) {
            Some(i) => {
                proof {
                    self.lemma_entry(i as int);
                }
                Some(self.sessions[i].clone())
            },
            None => None,
        }
    }

    /// Return the session's user exactly when the session is still valid
    /// and its token is still in the store; otherwise return nothing and
    /// drop the token from the store as a side effect.
    pub fn validate_session(&mut self, session: &Session, now: i64) -> (r: Option<User>)
        requires
            old(self).wf(),
        ensures
            final(self).wf(),
            r is Some <==> (session.spec_is_valid(now) && old(self)@.contains_key(
                session.token.spec_str(),
            )),
            r matches Some(u) ==> u == session.user && final(self)@ == old(self)@,
            r is None ==> final(self)@ == old(self)@.remove(session.token.spec_str()),
    {
        if session.is_valid(now) {
            match self.find_token(&session.token) {
                Some(i) => {
                    proof {
                        self.lemma_entry(i as int);
                    }
                    Some(session.user.clone())
                },
                None => {
                    proof {
                        assert(self@ =~= self@.remove(session.token.spec_str()));
                    }
                    None
                },
            }
        } else {
            self.remove_token(&session.token);
            None
        }
    }

    /// The index of some session already expired at `now`, if any.
    fn find_expired(&self, now: i64) -> (r: Option<usize>)
        ensures
            r matches Some(i) ==> i < self.spec_sessions().len()
                && !self.spec_sessions()[i as int].spec_is_valid(now),
            r is None ==> forall|k: int|
                0 <= k < self.spec_sessions().len() ==> self.spec_sessions()[k].spec_is_valid(now),
    {
        let n: usize = self.sessions.len();
        let mut i: usize = 0;
        loop
            invariant
                i <= n,
                n == self.spec_sessions().len(),
                forall|k: int| 0 <= k < i ==> self.spec_sessions()[k].spec_is_valid(now),
            decreases n - i,
        {
            if i == n {
                return None;
            }
            if !self.sessions[i].is_valid(now) {
                return Some(i);
            }
            i = i + 1;
        }
    }

    /// Remove every session whose lifetime is over at `now`; keep the rest
    /// untouched. Idempotent.
    pub fn cleanup(&mut self, now: i64)
        requires
            old(self).wf(),
        ensures
            final(self).wf(),
            forall|t: Seq<char>| #[trigger]
                final(self)@.contains_key(t) ==> old(self)@.contains_key(t) && final(self)@[t]
                    == old(self)@[t] && now < old(self)@[t].expire_time,
            forall|t: Seq<char>| #[trigger]
                old(self)@.contains_key(t) && now < old(self)@[t].expire_time
                    ==> final(self)@.contains_key(t),
    {
        loop
            invariant
                self.wf(),
                forall|t: Seq<char>| #[trigger]
                    self@.contains_key(t) ==> old(self)@.contains_key(t)
                        && self@[t] == old(self)@[t],
                forall|t: Seq<char>| #[trigger]
                    old(self)@.contains_key(t) && now < old(self)@[t].expire_time
                        ==> self@.contains_key(t),
            decreases self.spec_sessions().len(),
        {
            let found = self.find_expired(now);
            match found {
                Some(i) => {
                    let ghost pre = *self;
                    let ghost t = self.sessions@[i as int].token.spec_str();
                    proof {
                        pre.lemma_entry(i as int);
                    }
                    self.sessions.remove(i);
                    proof {
                        lemma_remove_keyed(pre, *self, i as int, t);
                    }
                },
                None => {
                    proof {
                        assert forall|t: Seq<char>| #[trigger]
                            self@.contains_key(t) implies now < self@[t].expire_time by {
                            let j = self.spec_index_of(t);
                            self.lemma_entry(j);
                        }
                    }
                    return ;
                },
            }
        }
    }

    /// Insert `session`, replacing any stored session with the same token.
    fn insert_session(&mut self, session: Session)
        requires
            old(self).wf(),
        ensures
            final(self).wf(),
            final(self)@ == old(self)@.insert(session.token.spec_str(), session),
    {
        self.remove_token(&session.token);
        let ghost mid = *self;
        self.sessions.push(session);
        proof {
            lemma_push_fresh(mid, *self, session);
            assert(self@ =~= old(self)@.insert(session.token.spec_str(), session));
        }
    }
}

/// Removing the only session with token `t` removes exactly `t` from the
/// map view and keeps every other entry.
proof fn lemma_remove_keyed(pre: SessionManager, post: SessionManager, i: int, t: Seq<char>)
    requires
        pre.wf(),
        0 <= i < pre.spec_sessions().len(),
        pre.spec_sessions()[i].token.spec_str() == t,
        post.spec_sessions() == pre.spec_sessions().remove(i),
    ensures
        post.wf(),
        post@ == pre@.remove(t),
        forall|k: int|
            0 <= k < post.spec_sessions().len() ==> post.spec_sessions()[k].token.spec_str() != t,
{
    assert(post.wf());
    assert forall|k: int| 0 <= k < post.spec_sessions().len() implies post.spec_sessions()[k].token.spec_str()
        != t by {
        let kk: int = if k < i {
            k
        } else {
            k + 1
        };
        assert(post.spec_sessions()[k] == pre.spec_sessions()[kk]);
        if post.spec_sessions()[k].token.spec_str() == t {
            assert(pre.spec_sessions()[kk].token.spec_str() == pre.spec_sessions()[i].token.spec_str());
        }
    }
    assert forall|u: Seq<char>| #[trigger] post@.contains_key(u) implies pre@.remove(t).contains_key(u)
        && post@[u] == pre@.remove(t)[u] by {
        let j = post.spec_index_of(u);
        assert(0 <= j < post.spec_sessions().len() && post.spec_sessions()[j].token.spec_str() == u);
        let k: int = if j < i {
            j
        } else {
            j + 1
        };
        assert(pre.spec_sessions()[k] == post.spec_sessions()[j]);
        pre.lemma_entry(k);
        post.lemma_entry(j);
        assert(u != t);
    }
    assert forall|u: Seq<char>| #[trigger] pre@.remove(t).contains_key(u) implies post@.contains_key(
        u,
    ) by {
        let j = pre.spec_index_of(u);
        assert(0 <= j < pre.spec_sessions().len() && pre.spec_sessions()[j].token.spec_str() == u);
        assert(u != t);
        assert(j != i);
        let k: int = if j < i {
            j
        } else {
            j - 1
        };
        assert(post.spec_sessions()[k] == pre.spec_sessions()[j]);
        assert(post.spec_contains(u));
    }
    assert(post@ =~= pre@.remove(t));
}

/// Pushing a session whose token is fresh adds exactly that entry to the
/// map view.
proof fn lemma_push_fresh(pre: SessionManager, post: SessionManager, session: Session)
    requires
        pre.wf(),
        forall|k: int|
            0 <= k < pre.spec_sessions().len() ==> pre.spec_sessions()[k].token.spec_str()
                != session.token.spec_str(),
        post.spec_sessions() == pre.spec_sessions().push(session),
    ensures
        post.wf(),
        post@ == pre@.insert(session.token.spec_str(), session),
{
    let t = session.token.spec_str();
    let n = pre.spec_sessions().len() as int;
    assert(post.spec_sessions()[n] == session);
    assert forall|i: int, j: int|
        0 <= i < j < post.spec_sessions().len() implies post.spec_sessions()[i].token.spec_str()
        != post.spec_sessions()[j].token.spec_str() by {
        if j < n {
            assert(pre.spec_sessions()[i] == post.spec_sessions()[i]);
            assert(pre.spec_sessions()[j] == post.spec_sessions()[j]);
        } else {
            assert(pre.spec_sessions()[i] == post.spec_sessions()[i]);
        }
    }
    assert forall|u: Seq<char>| #[trigger] post@.contains_key(u) implies pre@.insert(t, session).contains_key(u)
        && post@[u] == pre@.insert(t, session)[u] by {
        let j = post.spec_index_of(u);
        assert(0 <= j < post.spec_sessions().len() && post.spec_sessions()[j].token.spec_str() == u);
        post.lemma_entry(j);
        if j < n {
            assert(pre.spec_sessions()[j] == post.spec_sessions()[j]);
            pre.lemma_entry(j);
            assert(u != t);
        }
    }
    assert forall|u: Seq<char>| #[trigger] pre@.insert(t, session).contains_key(u) implies post@.contains_key(
        u,
    ) by {
        if u == t {
            assert(post.spec_sessions()[n].token.spec_str() == t);
            assert(post.spec_contains(u));
        } else {
            let j = pre.spec_index_of(u);
            assert(0 <= j < pre.spec_sessions().len() && pre.spec_sessions()[j].token.spec_str()
                == u);
            assert(post.spec_sessions()[j] == pre.spec_sessions()[j]);
            assert(post.spec_contains(u));
        }
    }
    assert(post@ =~= pre@.insert(t, session));
}

impl View for SessionManager {
    type V = Map<Seq<char>, Session>;

    closed spec fn view(&self) -> Map<Seq<char>, Session> {
        Map::new(
            |t: Seq<char>| self.spec_contains(t),
            |t: Seq<char>| self.sessions@[self.spec_index_of(t)],
        )
    }
}

impl Default for SessionManager {
    fn default() -> (m: SessionManager)
        ensures
            m.wf(),
            m@ == Map::<Seq<char>, Session>::empty(),
    {
        SessionManager::new()
    }
}

} // verus!
