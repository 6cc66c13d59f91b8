use vstd::prelude::*;

use crate::error::MarketError;
use crate::id::{IdIssuer, ID};

verus! {

/// One open session, in the terms that contracts speak of.
pub struct SessionModel {
    pub client_id: nat,
    pub user_id: nat,
    pub user_name: Seq<char>,
    pub display_name: Seq<char>,
}

/// Whether a session in `s` has the session identifier `client_id`.
pub open spec fn has_client_id(s: Seq<SessionModel>, client_id: nat) -> bool {
    exists|i: int| 0 <= i < s.len() && (#[trigger] s[i]).client_id == client_id
}

/// Whether a session in `s` is bound to account `user_id`.
pub open spec fn has_user_id(s: Seq<SessionModel>, user_id: nat) -> bool {
    exists|i: int| 0 <= i < s.len() && (#[trigger] s[i]).user_id == user_id
}

/// Whether a session in `s` caches the login name `user_name`.
pub open spec fn has_session_user_name(s: Seq<SessionModel>, user_name: Seq<char>) -> bool {
    exists|i: int| 0 <= i < s.len() && (#[trigger] s[i]).user_name == user_name
}

/// Whether a session in `s` caches the display name `display_name`.
pub open spec fn has_session_display_name(s: Seq<SessionModel>, display_name: Seq<char>) -> bool {
    exists|i: int| 0 <= i < s.len() && (#[trigger] s[i]).display_name == display_name
}

/// The session in `s` with identifier `client_id` (meaningful when there
/// is one).
pub open spec fn session_with_client_id(s: Seq<SessionModel>, client_id: nat) -> SessionModel {
    s[choose|i: int| 0 <= i < s.len() && (#[trigger] s[i]).client_id == client_id]
}

/// The session in `s` bound to account `user_id` (meaningful when there is
/// one).
pub open spec fn session_with_user_id(s: Seq<SessionModel>, user_id: nat) -> SessionModel {
    s[choose|i: int| 0 <= i < s.len() && (#[trigger] s[i]).user_id == user_id]
}

/// A session: binds a session identifier to an account, with the account's
/// names as they were when the session was opened.
#[derive(Clone)]
pub struct ConnectedClient {
    client_id: ID,
    user_id: ID,
    user_name: String,
    display_name: String,
}

impl View for ConnectedClient {
    type V = SessionModel;

    closed spec fn view(&self) -> SessionModel {
        SessionModel {
            client_id: self.client_id@,
            user_id: self.user_id@,
            user_name: self.user_name@,
            display_name: self.display_name@,
        }
    }
}

impl ConnectedClient {
    /// A session for account `user_id`, with a fresh identifier from `ids`.
    fn new(ids: &mut IdIssuer, user_id: ID, user_name: String, display_name: String) -> (r:
        ConnectedClient)
        requires
            old(ids).next_value() < usize::MAX,
        ensures
            r@ == (SessionModel {
                client_id: old(ids).next_value(),
                user_id: user_id@,
                user_name: user_name@,
                display_name: display_name@,
            }),
            final(ids).next_value() == old(ids).next_value() + 1,
    {
        ConnectedClient { client_id: ID::new(ids), user_id, user_name, display_name }
    }

    /// The session identifier.
    pub fn client_id(&self) -> (r: ID)
        ensures
            r@ == self@.client_id,
    {
        self.client_id
    }

    /// The account the session is bound to.
    pub fn user_id(&self) -> (r: ID)
        ensures
            r@ == self@.user_id,
    {
        self.user_id
    }

    /// The login name cached when the session was opened.
    pub fn user_name(&self) -> (r: &String)
        ensures
            r@ == self@.user_name,
    {
        &self.user_name
    }

    /// The display name cached when the session was opened.
    pub fn display_name(&self) -> (r: &String)
        ensures
            r@ == self@.display_name,
    {
        &self.display_name
    }

    /// Whether the session identifier is `other_id`.
    fn equal_id(&self, other_id: ID) -> (r: bool)
        ensures
            r == (self@.client_id == other_id@),
    {
        self.client_id.equals(other_id)
    }

    /// Whether the session is bound to account `other_user_id`.
    fn equal_user_id(&self, other_user_id: ID) -> (r: bool)
        ensures
            r == (self@.user_id == other_user_id@),
    {
        self.user_id.equals(other_user_id)
    }
}

/// The open sessions: at most one per account, with session identifiers,
/// login names and display names unique among them.
pub struct ClientTracker {
    ids: IdIssuer,
    clients: Vec<ConnectedClient>,
}

impl View for ClientTracker {
    type V = Seq<SessionModel>;

    closed spec fn view(&self) -> Seq<SessionModel> {
        self.clients@.map_values(|c: ConnectedClient| c@)
    }
}

impl ClientTracker {
    pub closed spec fn wf(&self) -> bool {
        &&& forall|i: int, j: int|
            0 <= i < j < self@.len() ==> #[trigger] self@[i].client_id != #[trigger] self@[j].client_id
        &&& forall|i: int, j: int|
            0 <= i < j < self@.len() ==> #[trigger] self@[i].user_id != #[trigger] self@[j].user_id
        &&& forall|i: int, j: int|
            0 <= i < j < self@.len() ==> #[trigger] self@[i].user_name != #[trigger] self@[j].user_name
        &&& forall|i: int, j: int|
            0 <= i < j < self@.len() ==> #[trigger] self@[i].display_name
                != #[trigger] self@[j].display_name
        &&& forall|i: int| 0 <= i < self@.len() ==> (#[trigger] self@[i]).client_id < self.ids.next_value()
    }

    /// In a well-formed tracker each account has at most one session, and
    /// no two sessions share an identifier, a login name or a display name.
    pub proof fn lemma_sessions_unique(&self)
        requires
            self.wf(),
        ensures
            forall|i: int, j: int|
                0 <= i < j < self@.len() ==> #[trigger] self@[i].user_id != #[trigger] self@[j].user_id
                    && self@[i].client_id != self@[j].client_id && self@[i].user_name
                    != self@[j].user_name && self@[i].display_name != self@[j].display_name,
    {
    }

    /// Whether another session identifier can still be issued.
    pub open spec fn can_issue(&self) -> bool {
        self.issued_below() < usize::MAX
    }

    /// No identifier that this tracker ever issued is at or above this one.
    pub closed spec fn issued_below(&self) -> nat {
        self.ids.next_value()
    }

    /// A tracker with no sessions.
    pub fn new() -> (r: ClientTracker)
        ensures
            r.wf(),
            r@ == Seq::<SessionModel>::empty(),
            r.issued_below() == 1,
            r.can_issue(),
    {
        let r = ClientTracker { ids: IdIssuer::new(), clients: Vec::new() };
        assert(r@ =~= Seq::<SessionModel>::empty());
        r
    }

    /// Ends every session. Identifiers handed out before are never handed
    /// out again.
    pub fn clear(&mut self)
        requires
            old(self).wf(),
        ensures
            final(self).wf(),
            final(self)@ == Seq::<SessionModel>::empty(),
            final(self).issued_below() == old(self).issued_below(),
    {
        self.clients.clear();
        assert(self@ =~= Seq::<SessionModel>::empty());
    }

    /// Where the session with identifier `client_id` stands, if any.
    fn index_of_client_id(&self, client_id: ID) -> (r: Option<usize>)
        requires
            self.wf(),
        ensures
            r matches Some(i) ==> i < self@.len() && self@[i as int].client_id == client_id@
                && self@[i as int] == session_with_client_id(self@, client_id@),
            r is None ==> !has_client_id(self@, client_id@),
    {
        let mut i: usize = 0;
        while i < self.clients.len()
            invariant
                self.wf(),
                i <= self.clients@.len(),
                self@.len() == self.clients@.len(),
                forall|k: int| 0 <= k < i ==> (#[trigger] self@[k]).client_id != client_id@,
            decreases self.clients@.len() - i,
        {
            assert(self@[i as int] == self.clients@[i as int]@);
            if self.clients[i].equal_id(client_id) {
                proof {
                    assert(has_client_id(self@, client_id@));
                    let j = choose|j: int| 0 <= j < self@.len() && (#[trigger] self@[j]).client_id == client_id@;
                    if j < i {
                        assert(self@[j].client_id != self@[i as int].client_id);
                    } else if i < j {
                        assert(self@[i as int].client_id != self@[j].client_id);
                    }
                }
                return Some(i);
            }
            i = i + 1;
        }
        None
    }

    /// Where the session bound to account `user_id` stands, if any.
    fn index_of_user_id(&self, user_id: ID) -> (r: Option<usize>)
        requires
            self.wf(),
        ensures
            r matches Some(i) ==> i < self@.len() && self@[i as int].user_id == user_id@
                && self@[i as int] == session_with_user_id(self@, user_id@),
            r is None ==> !has_user_id(self@, user_id@),
    {
        let mut i: usize = 0;
        while i < self.clients.len()
            invariant
                self.wf(),
                i <= self.clients@.len(),
                self@.len() == self.clients@.len(),
                forall|k: int| 0 <= k < i ==> (#[trigger] self@[k]).user_id != user_id@,
            decreases self.clients@.len() - i,
        {
            assert(self@[i as int] == self.clients@[i as int]@);
            if self.clients[i].equal_user_id(user_id) {
                proof {
                    assert(has_user_id(self@, user_id@));
                    let j = choose|j: int| 0 <= j < self@.len() && (#[trigger] self@[j]).user_id == user_id@;
                    if j < i {
                        assert(self@[j].user_id != self@[i as int].user_id);
                    } else if i < j {
                        assert(self@[i as int].user_id != self@[j].user_id);
                    }
                }
                return Some(i);
            }
            i = i + 1;
        }
        None
    }

    /// Opens a session for account `user_id` and returns its identifier.
    /// Fails with `AlreadyBound` when the account has a session, with
    /// `AlreadyExists` when another session holds the login name or the
    /// display name, and with `InvalidArgument` when no identifier is left;
    /// a failure changes nothing.
    pub fn add_client(&mut self, user_id: ID, user_name: String, display_name: String) -> (r:
        Result<ID, MarketError>)
        requires
            old(self).wf(),
        ensures
            final(self).wf(),
            has_user_id(old(self)@, user_id@) ==> r == Err::<ID, MarketError>(
                MarketError::AlreadyBound,
            ),
            !has_user_id(old(self)@, user_id@) && (has_session_user_name(old(self)@, user_name@)
                || has_session_display_name(old(self)@, display_name@)) ==> r == Err::<
                ID,
                MarketError,
            >(MarketError::AlreadyExists),
            r is Ok <==> !has_user_id(old(self)@, user_id@) && !has_session_user_name(
                old(self)@,
                user_name@,
            ) && !has_session_display_name(old(self)@, display_name@) && old(self).can_issue(),
            r is Err ==> r == Err::<ID, MarketError>(MarketError::AlreadyBound) || r == Err::<
                ID,
                MarketError,
            >(MarketError::AlreadyExists) || r == Err::<ID, MarketError>(
                MarketError::InvalidArgument,
            ),
            r is Err ==> final(self)@ == old(self)@ && final(self).issued_below() == old(
                self,
            ).issued_below(),
            r matches Ok(id) ==> id@ == old(self).issued_below() && !has_client_id(old(self)@, id@)
                && final(self).issued_below() == old(self).issued_below() + 1 && final(self)@
                == old(self)@.push(
                SessionModel {
                    client_id: id@,
                    user_id: user_id@,
                    user_name: user_name@,
                    display_name: display_name@,
                },
            ),
    {
        if self.contains_user_id(user_id) {
            return Err(MarketError::AlreadyBound);
        }
        if self.contains_user_name(&user_name) {
            return Err(MarketError::AlreadyExists);
        }
        if self.contains_display_name(&display_name) {
            return Err(MarketError::AlreadyExists);
        }
        if !self.ids.can_issue() {
            return Err(MarketError::InvalidArgument);
        }
        let client = ConnectedClient::new(&mut self.ids, user_id, user_name, display_name);
        let id = client.client_id();
        let ghost before = self@;
        self.clients.push(client);
        proof {
            assert(self@ =~= before.push(client@));
            assert forall|i: int| 0 <= i < before.len() implies before[i].client_id != id@ by {
                assert(before[i].client_id < old(self).ids.next_value());
            }
        }
        Ok(id)
    }

    /// The session with identifier `client_id`, or `NotFound`.
    pub fn get_client_by_client_id(&self, client_id: ID) -> (r: Result<&ConnectedClient, MarketError>)
        requires
            self.wf(),
        ensures
            r is Err <==> !has_client_id(self@, client_id@),
            r is Err ==> r == Err::<&ConnectedClient, MarketError>(MarketError::NotFound),
            r matches Ok(c) ==> c@ == session_with_client_id(self@, client_id@)
                && c@.client_id == client_id@,
    {
        match self.index_of_client_id(client_id) {
            Some(i) => {
                assert(self@[i as int] == self.clients@[i as int]@);
                Ok(&self.clients[i])
            },
            None => Err(MarketError::NotFound),
        }
    }

    /// The account bound to session `client_id`, or `NotFound`.
    pub fn get_user_id_by_client_id(&self, client_id: ID) -> (r: Result<ID, MarketError>)
        requires
            self.wf(),
        ensures
            r is Err <==> !has_client_id(self@, client_id@),
            r is Err ==> r == Err::<ID, MarketError>(MarketError::NotFound),
            r matches Ok(id) ==> id@ == session_with_client_id(self@, client_id@).user_id,
    {
        match self.index_of_client_id(client_id) {
            Some(i) => {
                assert(self@[i as int] == self.clients@[i as int]@);
                Ok(self.clients[i].user_id())
            },
            None => Err(MarketError::NotFound),
        }
    }

    /// The session bound to account `user_id`, or `NotFound`.
    pub fn get_client_id_by_user_id(&self, user_id: ID) -> (r: Result<ID, MarketError>)
        requires
            self.wf(),
        ensures
            r is Err <==> !has_user_id(self@, user_id@),
            r is Err ==> r == Err::<ID, MarketError>(MarketError::NotFound),
            r matches Ok(id) ==> id@ == session_with_user_id(self@, user_id@).client_id
                && has_client_id(self@, id@),
    {
        match self.index_of_user_id(user_id) {
            Some(i) => {
                assert(self@[i as int] == self.clients@[i as int]@);
                Ok(self.clients[i].client_id())
            },
            None => Err(MarketError::NotFound),
        }
    }

    /// Whether session `client_id` is open.
    pub fn contains_client_id(&self, client_id: ID) -> (r: bool)
        requires
            self.wf(),
        ensures
            r == has_client_id(self@, client_id@),
    {
        self.index_of_client_id(client_id).is_some()
    }

    /// Whether account `user_id` has a session.
    pub fn contains_user_id(&self, user_id: ID) -> (r: bool)
        requires
            self.wf(),
        ensures
            r == has_user_id(self@, user_id@),
    {
        self.index_of_user_id(user_id).is_some()
    }

    /// Whether a session caches the login name `user_name`.
    pub fn contains_user_name(&self, user_name: &String) -> (r: bool)
        ensures
            r == has_session_user_name(self@, user_name@),
    {
        let mut i: usize = 0;
        while i < self.clients.len()
            invariant
                i <= self.clients@.len(),
                self@.len() == self.clients@.len(),
                forall|k: int| 0 <= k < i ==> (#[trigger] self@[k]).user_name != user_name@,
            decreases self.clients@.len() - i,
        {
            assert(self@[i as int] == self.clients@[i as int]@);
            if self.clients[i].user_name().eq(user_name) {
                return true;
            }
            i = i + 1;
        }
        false
    }

    /// Whether a session caches the display name `display_name`.
    pub fn contains_display_name(&self, display_name: &String) -> (r: bool)
        ensures
            r == has_session_display_name(self@, display_name@),
    {
        let mut i: usize = 0;
        while i < self.clients.len()
            invariant
                i <= self.clients@.len(),
                self@.len() == self.clients@.len(),
                forall|k: int| 0 <= k < i ==> (#[trigger] self@[k]).display_name != display_name@,
            decreases self.clients@.len() - i,
        {
            assert(self@[i as int] == self.clients@[i as int]@);
            if self.clients[i].display_name().eq(display_name) {
                return true;
            }
            i = i + 1;
        }
        false
    }
}

} // verus!
