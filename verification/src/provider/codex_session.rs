//! The sessions of the Codex provider, and what its requests carry.
use crate::provider::codex_auth::{header_text, is_header_value};
use crate::text::{same_text, starts_with, view_option};
use vstd::prelude::*;

verus! {

/// Where the service is.
pub const BASE_URL: &'static str = "https://chatgpt.com/backend-api/codex";

/// How many milliseconds a session is kept without being used.
pub const SESSION_IDLE_MS: u64 = 1_800_000;

/// A session, and when it was used last.
#[derive(Debug, PartialEq)]
pub struct Session {
    pub id: String,
    pub last_used_ms: u64,
}

/// The sessions that are kept.
#[derive(Debug)]
pub struct Sessions {
    list: Vec<Session>,
}

/// What a session stands for.
pub struct SessionView {
    pub id: Seq<char>,
    pub last_used_ms: u64,
}

impl View for Session {
    type V = SessionView;

    open spec fn view(&self) -> SessionView {
        SessionView { id: self.id@, last_used_ms: self.last_used_ms }
    }
}

impl View for Sessions {
    type V = Seq<SessionView>;

    closed spec fn view(&self) -> Seq<SessionView> {
        Seq::new(self.list@.len(), |i: int| self.list@[i]@)
    }
}

/// Whether a session is still kept.
pub open spec fn fresh(session: SessionView, now_ms: u64) -> bool {
    now_ms < session.last_used_ms || now_ms - session.last_used_ms < SESSION_IDLE_MS
}

/// Those of the first `count` sessions that are kept beside the session `id`.
pub open spec fn others(sessions: Seq<SessionView>, id: Seq<char>, now_ms: u64, count: nat) -> Seq<
    SessionView,
>
    decreases count,
{
    if count == 0 {
        Seq::empty()
    } else {
        let before = others(sessions, id, now_ms, (count - 1) as nat);
        let session = sessions[count - 1];
        if fresh(session, now_ms) && session.id != id {
            before.push(session)
        } else {
            before
        }
    }
}

/// The sessions after the session `id` was used.
pub open spec fn used(sessions: Seq<SessionView>, id: Seq<char>, now_ms: u64) -> Seq<SessionView> {
    others(sessions, id, now_ms, sessions.len()).push(SessionView { id, last_used_ms: now_ms })
}

impl Sessions {
    /// No sessions.
    pub fn new() -> (sessions: Self)
        ensures
            sessions@ == Seq::<SessionView>::empty(),
    {
        let sessions = Sessions { list: Vec::new() };
        assert(sessions@ =~= Seq::empty());
        sessions
    }

    /// Uses the session `id`. Sessions that nobody used for a while are dropped.
    pub fn open(&mut self, id: &str, now_ms: u64)
        ensures
            final(self)@ == used(old(self)@, id@, now_ms),
    {
        let ghost all = self@;
        let mut kept: Vec<Session> = Vec::new();
        let mut i: usize = 0;
        assert(Seq::new(kept@.len(), |k: int| kept@[k]@) =~= Seq::empty());
        while i < self.list.len()
            invariant
                i <= self.list.len(),
                all == self@,
                Seq::new(kept@.len(), |k: int| kept@[k]@) == others(all, id@, now_ms, i as nat),
            decreases self.list.len() - i,
        {
            let session = &self.list[i];
            assert(all[i as int] == session@);
            let ghost before = Seq::new(kept@.len(), |k: int| kept@[k]@);
            if (now_ms < session.last_used_ms || now_ms - session.last_used_ms < SESSION_IDLE_MS)
                && !same_text(session.id.as_str(), id) {
                kept.push(Session { id: session.id.clone(), last_used_ms: session.last_used_ms });
                assert(Seq::new(kept@.len(), |k: int| kept@[k]@) =~= before.push(session@));
            }
            i += 1;
        }
        let ghost before = Seq::new(kept@.len(), |k: int| kept@[k]@);
        kept.push(Session { id: id.to_owned(), last_used_ms: now_ms });
        self.list = kept;
        assert(self@ =~= before.push(SessionView { id: id@, last_used_ms: now_ms }));
    }

    /// The sessions that are kept.
    pub fn kept(&self) -> (list: &Vec<Session>)
        ensures
            Seq::new(list@.len(), |i: int| list@[i]@) == self@,
    {
        &self.list
    }

    /// Forgets every session.
    pub fn clear(&mut self)
        ensures
            final(self)@ == Seq::<SessionView>::empty(),
    {
        self.list = Vec::new();
        assert(self@ =~= Seq::empty());
    }
}

/// The session that was used last is there, once.
pub proof fn law_used_session_is_kept(sessions: Seq<SessionView>, id: Seq<char>, now_ms: u64, i: int)
    requires
        0 <= i < used(sessions, id, now_ms).len(),
    ensures
        used(sessions, id, now_ms)[i].id == id <==> i == used(sessions, id, now_ms).len() - 1,
{
    lemma_others(sessions, id, now_ms, sessions.len());
}

proof fn lemma_others(sessions: Seq<SessionView>, id: Seq<char>, now_ms: u64, count: nat)
    ensures
        forall|i: int|
            0 <= i < others(sessions, id, now_ms, count).len() ==> (#[trigger] others(
                sessions,
                id,
                now_ms,
                count,
            )[i]).id != id,
    decreases count,
{
    if count > 0 {
        lemma_others(sessions, id, now_ms, (count - 1) as nat);
        let before = others(sessions, id, now_ms, (count - 1) as nat);
        let all = others(sessions, id, now_ms, count);
        assert forall|i: int| 0 <= i < all.len() implies (#[trigger] all[i]).id != id by {
            if i < before.len() {
                assert(all[i] == before[i]);
            }
        }
    }
}

/// A header of a request.
#[derive(Debug, PartialEq)]
pub struct RequestHeader {
    pub name: &'static str,
    pub value: String,
}

/// What headers stand for.
pub open spec fn header_views(headers: Seq<RequestHeader>) -> Seq<(Seq<char>, Seq<char>)> {
    Seq::new(headers.len(), |i: int| (headers[i].name@, headers[i].value@))
}

/// Why a request cannot be sent.
#[derive(Clone, Copy, Debug, PartialEq, Eq, Structural)]
pub enum HeaderError {
    Session,
    TurnState,
}

impl HeaderError {
    /// What is told of the error.
    pub fn message(self) -> (text: &'static str)
        ensures
            text@ == (match self {
                HeaderError::Session => "invalid model session ID"@,
                HeaderError::TurnState => "invalid Codex turn state"@,
            }),
    {
        match self {
            HeaderError::Session => "invalid model session ID",
            HeaderError::TurnState => "invalid Codex turn state",
        }
    }
}

/// The headers of a request of a session.
pub open spec fn session_headers(id: Seq<char>, turn_state: Option<Seq<char>>) -> Result<
    Seq<(Seq<char>, Seq<char>)>,
    HeaderError,
> {
    let names = seq![("session-id"@, id), ("thread-id"@, id), ("x-client-request-id"@, id)];
    let last = ("x-codex-beta-features"@, "remote_compaction_v2"@);
    if !header_text(id) {
        Err(HeaderError::Session)
    } else {
        match turn_state {
            Some(state) => if header_text(state) {
                Ok(names.push(("x-codex-turn-state"@, state)).push(last))
            } else {
                Err(HeaderError::TurnState)
            },
            None => Ok(names.push(last)),
        }
    }
}

pub(crate) fn add_header(headers: &mut Vec<RequestHeader>, name: &'static str, value: &str)
    ensures
        header_views(final(headers)@) == header_views(old(headers)@).push((name@, value@)),
{
    headers.push(RequestHeader { name, value: value.to_owned() });
    assert(header_views(headers@) =~= header_views(old(headers)@).push((name@, value@)));
}

/// The headers of a request of a session.
pub fn request_headers(id: &str, turn_state: &Option<String>) -> (result: Result<
    Vec<RequestHeader>,
    HeaderError,
>)
    ensures
        match result {
            Ok(headers) => session_headers(id@, view_option(*turn_state)) == Ok::<
                Seq<(Seq<char>, Seq<char>)>,
                HeaderError,
            >(header_views(headers@)),
            Err(error) => session_headers(id@, view_option(*turn_state)) == Err::<
                Seq<(Seq<char>, Seq<char>)>,
                HeaderError,
            >(error),
        },
{
    if !is_header_value(id) {
        return Err(HeaderError::Session);
    }
    let mut headers: Vec<RequestHeader> = Vec::new();
    assert(header_views(headers@) =~= Seq::empty());
    add_header(&mut headers, "session-id", id);
    add_header(&mut headers, "thread-id", id);
    add_header(&mut headers, "x-client-request-id", id);
    assert(header_views(headers@) =~= seq![
        ("session-id"@, id@),
        ("thread-id"@, id@),
        ("x-client-request-id"@, id@),
    ]);
    match turn_state {
        Some(state) => {
            if !is_header_value(state.as_str()) {
                return Err(HeaderError::TurnState);
            }
            add_header(&mut headers, "x-codex-turn-state", state.as_str());
        },
        None => {},
    }
    add_header(&mut headers, "x-codex-beta-features", "remote_compaction_v2");
    Ok(headers)
}

/// The state of the turn after an answer: the one that the answer gives, if any.
pub fn next_turn_state(current: Option<String>, answered: Option<String>) -> (state: Option<String>)
    ensures
        state == (if answered is Some {
            answered
        } else {
            current
        }),
{
    match answered {
        Some(state) => Some(state),
        None => current,
    }
}

/// The headers that a request has beside its own: the version for the service
/// itself, and the account where the login names one.
pub fn account_headers(url: &str, account_id: &Option<String>) -> (headers: Vec<RequestHeader>)
    ensures
        header_views(headers@) == (if crate::text::has_prefix(url@, BASE_URL@) {
            seq![("version"@, "0.0.0"@)]
        } else {
            Seq::empty()
        }) + (match *account_id {
            Some(id) => seq![("ChatGPT-Account-ID"@, id@)],
            None => Seq::empty(),
        }),
{
    let mut headers: Vec<RequestHeader> = Vec::new();
    assert(header_views(headers@) =~= Seq::empty());
    if starts_with(url, BASE_URL) {
        add_header(&mut headers, "version", "0.0.0");
    }
    let ghost before = header_views(headers@);
    match account_id {
        Some(id) => {
            add_header(&mut headers, "ChatGPT-Account-ID", id.as_str());
            assert(before.push(("ChatGPT-Account-ID"@, account_id->0@)) =~= before + seq![
                ("ChatGPT-Account-ID"@, account_id->0@),
            ]);
        },
        None => {
            assert(before + Seq::<(Seq<char>, Seq<char>)>::empty() =~= before);
        },
    }
    assert(before =~= (if crate::text::has_prefix(url@, BASE_URL@) {
        seq![("version"@, "0.0.0"@)]
    } else {
        Seq::empty()
    }));
    headers
}

/// A session is kept for half an hour after it was last used, once, and the one that
/// is used is the newest; one that was idle for longer is forgotten.
pub proof fn law_idle_sessions_are_forgotten(
    sessions: Seq<SessionView>,
    id: Seq<char>,
    now_ms: u64,
    count: nat,
    i: int,
)
    requires
        0 <= i < count <= sessions.len(),
    ensures
        ({
            let kept = others(sessions, id, now_ms, count);
            let session = sessions[i];
            let recent = now_ms < session.last_used_ms + 1_800_000;
            &&& recent && session.id != id ==> kept.contains(session)
            &&& forall|k: int|
                0 <= k < kept.len() ==> (#[trigger] kept[k]).id != id && now_ms
                    < kept[k].last_used_ms + 1_800_000
        }),
        used(sessions, id, now_ms).last() == (SessionView { id, last_used_ms: now_ms }),
    decreases count,
{
    let before = others(sessions, id, now_ms, (count - 1) as nat);
    let kept = others(sessions, id, now_ms, count);
    if count > 1 {
        law_idle_sessions_are_forgotten(
            sessions,
            id,
            now_ms,
            (count - 1) as nat,
            if i < count - 1 {
                i
            } else {
                0
            },
        );
    }
    let session = sessions[i];
    if now_ms < session.last_used_ms + 1_800_000 && session.id != id {
        if i < count - 1 {
            let k = choose|k: int| 0 <= k < before.len() && before[k] == session;
            assert(kept[k] == session);
        } else {
            assert(kept.last() == session);
        }
    }
}

/// A request says which session and thread it belongs to, and the state of the turn
/// where that is known. A name that no header can hold is refused.
pub proof fn law_request_names_its_session(id: Seq<char>, turn_state: Option<Seq<char>>)
    ensures
        ({
            let result = session_headers(id, turn_state);
            &&& result is Ok <==> header_text(id) && (turn_state matches Some(state) ==> header_text(
                state,
            ))
            &&& !header_text(id) ==> result->Err_0 is Session
            &&& header_text(id) && result is Err ==> result->Err_0 is TurnState
            &&& result matches Ok(headers) ==> {
                &&& headers.contains(("session-id"@, id))
                &&& headers.contains(("thread-id"@, id))
                &&& headers.contains(("x-client-request-id"@, id))
                &&& headers.contains(("x-codex-beta-features"@, "remote_compaction_v2"@))
                &&& turn_state matches Some(state) ==> headers.contains(
                    ("x-codex-turn-state"@, state),
                )
                &&& headers.len() == 4 + if turn_state is Some {
                    1int
                } else {
                    0
                }
            }
        }),
{
    if let Ok(headers) = session_headers(id, turn_state) {
        assert(headers[0] == ("session-id"@, id));
        assert(headers[1] == ("thread-id"@, id));
        assert(headers[2] == ("x-client-request-id"@, id));
        if let Some(state) = turn_state {
            assert(headers[3] == ("x-codex-turn-state"@, state));
        }
        assert(headers.last() == ("x-codex-beta-features"@, "remote_compaction_v2"@));
    }
}

/// The state of a turn is the last that was answered; the account is named where it is
/// known, and the version only to Codex itself.
pub proof fn law_turn_state_is_the_last(
    current: Option<String>,
    answered: Option<String>,
    state: Option<String>,
    url: &str,
    account_id: Option<String>,
    headers: Vec<RequestHeader>,
)
    requires
        call_ensures(next_turn_state, (current, answered), state),
        call_ensures(account_headers, (url, &account_id), headers),
    ensures
        answered is Some ==> state == answered,
        answered is None ==> state == current,
        account_id matches Some(id) ==> header_views(headers@).contains(
            ("ChatGPT-Account-ID"@, id@),
        ),
        account_id is None && !crate::text::has_prefix(url@, BASE_URL@) ==> headers@.len() == 0,
        crate::text::has_prefix(url@, BASE_URL@) ==> header_views(headers@).contains(
            ("version"@, "0.0.0"@),
        ),
{
    let views = header_views(headers@);
    assert(views.len() == headers@.len());
    if let Some(id) = account_id {
        assert(views.last() == ("ChatGPT-Account-ID"@, id@));
    }
    if crate::text::has_prefix(url@, BASE_URL@) {
        assert(views[0] == ("version"@, "0.0.0"@));
    }
}

} // verus!
