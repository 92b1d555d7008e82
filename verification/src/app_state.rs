//! All monitoring sessions.

use vstd::prelude::*;
use vstd::string::*;

use crate::session;
use crate::session::{
    Averages, DataPoint, DataPointView, Export, ExportFormat, Session, SessionInfo, SessionSnapshot,
    SessionView,
};
use crate::sequences;
use crate::text;
use crate::time;
use crate::time::{LocalTime, Timestamp};

verus! {

/// Global application state holding all monitoring sessions.
pub struct AppState {
    sessions: Vec<Session>,
    session_counter: u64,
}

/// What the application state holds: the sessions in the order of their creation, and how many
/// were ever created.
pub struct StateView {
    pub sessions: Seq<SessionView>,
    pub counter: u64,
}

/// What a list of sessions holds.
pub open spec fn sessions_view(sessions: Seq<Session>) -> Seq<SessionView> {
    sessions.map_values(|s: Session| s@)
}

impl View for AppState {
    type V = StateView;

    closed spec fn view(&self) -> StateView {
        StateView { sessions: sessions_view(self.sessions@), counter: self.session_counter }
    }
}

/// The label of the session with the given number, created when a clock shows the given time.
pub open spec fn session_label(counter: u64, at: LocalTime) -> Seq<char> {
    "Session #"@ + text::decimal(counter as nat) + " – "@ + time::clock_text(at)
}

/// The message for an identifier that no session has.
pub open spec fn not_found_message(id: Seq<char>) -> Seq<char> {
    "Session not found: "@ + id
}

/// Whether a session has another identifier.
pub open spec fn has_other_id(id: Seq<char>) -> spec_fn(SessionView) -> bool {
    |s: SessionView| s.id != id
}

impl StateView {
    /// Whether a session is the one with the given number, of those created so far.
    pub open spec fn numbered(self, s: SessionView, k: u64) -> bool {
        1 <= k <= self.counter && s.id == session::session_id(k)
    }

    /// Whether a session is one of those created so far.
    pub open spec fn has_number(self, s: SessionView) -> bool {
        exists|k: u64| self.numbered(s, k)
    }

    /// Whether the session at one index was created before the one at another.
    pub open spec fn created_before(self, i: int, j: int) -> bool {
        forall|k: u64, l: u64|
            #![trigger self.numbered(self.sessions[i], k), self.numbered(self.sessions[j], l)]
            self.numbered(self.sessions[i], k) && self.numbered(self.sessions[j], l) ==> k < l
    }

    /// Every session has the identifier of one of the sessions created so far, they stand in the
    /// order of their creation, no two have the same identifier, a session is active exactly while
    /// it has no end, the calendar can express all their times, and none holds more measurements
    /// than it may.
    pub open spec fn wf(self) -> bool {
        &&& forall|i: int|
            0 <= i < self.sessions.len() ==> self.has_number(#[trigger] self.sessions[i])
        &&& forall|i: int, j: int|
            0 <= i < j < self.sessions.len() ==> #[trigger] self.created_before(i, j)
        &&& forall|i: int|
            0 <= i < self.sessions.len() ==> ((#[trigger] self.sessions[i]).active
                <==> self.sessions[i].ended_at is None)
        &&& forall|i: int, j: int|
            0 <= i < j < self.sessions.len() ==> (#[trigger] self.sessions[i]).id != (
            #[trigger] self.sessions[j]).id
        &&& forall|i: int| 0 <= i < self.sessions.len() ==> (#[trigger] self.sessions[i]).valid()
        &&& forall|i: int|
            0 <= i < self.sessions.len() ==> (#[trigger] self.sessions[i]).data_points.len()
                <= session::MAX_POINTS
    }

    /// Whether the session at an index has the given identifier.
    pub open spec fn is_at(self, id: Seq<char>, i: int) -> bool {
        0 <= i < self.sessions.len() && self.sessions[i].id == id
    }

    /// Whether some session has the given identifier.
    pub open spec fn has(self, id: Seq<char>) -> bool {
        exists|i: int| self.is_at(id, i)
    }

    /// The session with the given identifier.
    pub open spec fn lookup(self, id: Seq<char>) -> SessionView
        recommends
            self.has(id),
    {
        self.sessions[choose|i: int| self.is_at(id, i)]
    }

    /// The state without sessions.
    pub open spec fn initial() -> StateView {
        StateView { sessions: Seq::empty(), counter: 0 }
    }

    /// The state with one more session.
    pub open spec fn created(
        self,
        executable: Seq<char>,
        interval_ms: u64,
        network_enabled: bool,
        retention_secs: u64,
        labelled_at: LocalTime,
        started_at: LocalTime,
    ) -> StateView {
        let number = (self.counter + 1) as u64;
        StateView {
            sessions: self.sessions.push(
                session::new_session(
                    number,
                    session_label(number, labelled_at),
                    executable,
                    interval_ms,
                    retention_secs,
                    network_enabled,
                    started_at,
                ),
            ),
            counter: number,
        }
    }

    /// The state in which the session with the given identifier is replaced.
    pub open spec fn replaced(self, id: Seq<char>, by: SessionView) -> StateView {
        StateView {
            sessions: self.sessions.map_values(
                |s: SessionView|
                    if s.id == id {
                        by
                    } else {
                        s
                    },
            ),
            ..self
        }
    }

    /// The state after a session was stopped.
    pub open spec fn stopped(self, id: Seq<char>, ended_at: LocalTime) -> StateView {
        self.replaced(id, self.lookup(id).stopped(ended_at))
    }

    /// The state after a session was removed.
    pub open spec fn removed(self, id: Seq<char>) -> StateView {
        StateView { sessions: self.sessions.filter(has_other_id(id)), ..self }
    }

    /// The state after a measurement was added to a session.
    pub open spec fn pushed(self, id: Seq<char>, point: DataPointView, now: Timestamp) -> StateView {
        self.replaced(id, self.lookup(id).with_point(point, now))
    }
}

proof fn lemma_lookup(state: StateView, id: Seq<char>, i: int)
    requires
        state.wf(),
        state.is_at(id, i),
    ensures
        state.has(id),
        state.lookup(id) == state.sessions[i],
{
    let j = choose|j: int| state.is_at(id, j);
    assert(state.is_at(id, j));
    if i < j {
        assert(state.sessions[i].id != state.sessions[j].id);
    } else if j < i {
        assert(state.sessions[j].id != state.sessions[i].id);
    }
}

proof fn lemma_replaced(state: StateView, id: Seq<char>, i: int, by: SessionView)
    requires
        state.wf(),
        state.is_at(id, i),
        by.id == id,
        by.valid(),
        by.active <==> by.ended_at is None,
        by.data_points.len() <= session::MAX_POINTS,
    ensures
        state.replaced(id, by).sessions == state.sessions.update(i, by),
        state.replaced(id, by).wf(),
{
    let after = state.replaced(id, by);
    assert forall|j: int| 0 <= j < state.sessions.len() implies after.sessions[j]
        == state.sessions.update(i, by)[j] by {
        if j < i {
            assert(state.sessions[j].id != state.sessions[i].id);
        } else if i < j {
            assert(state.sessions[i].id != state.sessions[j].id);
        }
    }
    assert(after.sessions =~= state.sessions.update(i, by));
    assert forall|j: int| 0 <= j < after.sessions.len() implies after.has_number(
        #[trigger] after.sessions[j],
    ) by {
        let k = choose|k: u64| state.numbered(state.sessions[j], k);
        assert(state.numbered(state.sessions[j], k));
        assert(after.sessions[j].id == state.sessions[j].id);
        assert(after.numbered(after.sessions[j], k));
    }
    assert forall|a: int, b: int| 0 <= a < b < after.sessions.len() implies (
    #[trigger] after.sessions[a]).id != (#[trigger] after.sessions[b]).id by {
        assert(after.sessions[a].id == state.sessions[a].id);
        assert(after.sessions[b].id == state.sessions[b].id);
    }
    assert forall|a: int, b: int| 0 <= a < b < after.sessions.len() implies
        #[trigger] after.created_before(a, b) by {
        assert(after.sessions[a].id == state.sessions[a].id);
        assert(after.sessions[b].id == state.sessions[b].id);
        lemma_created_before(state, a, b, after, a, b);
    }
}

/// The order of two sessions goes by their identifiers alone.
proof fn lemma_created_before(a: StateView, i: int, j: int, b: StateView, x: int, y: int)
    requires
        a.created_before(i, j),
        a.counter == b.counter,
        a.sessions[i].id == b.sessions[x].id,
        a.sessions[j].id == b.sessions[y].id,
    ensures
        b.created_before(x, y),
{
    assert forall|k: u64, l: u64|
        #![trigger b.numbered(b.sessions[x], k), b.numbered(b.sessions[y], l)]
        b.numbered(b.sessions[x], k) && b.numbered(b.sessions[y], l) implies k < l by {
        assert(a.numbered(a.sessions[i], k) && a.numbered(a.sessions[j], l));
    }
}

proof fn lemma_with_point_valid(s: SessionView, point: DataPointView, now: Timestamp)
    requires
        s.valid(),
        point.timestamp.valid(),
    ensures
        s.with_point(point, now).valid(),
{
    let all = s.data_points.push(point);
    let recent = session::within_window(all, s.retention_secs, now);
    assert forall|i: int| 0 <= i < recent.len() implies (#[trigger] recent[i]).timestamp.valid() by {
        if let Some(start) = session::window_start(s.retention_secs, now) {
            let source = sequences::lemma_filter_source(all, session::since(start), i);
            assert(all[source].timestamp.valid());
        }
    }
}

impl AppState {
    /// The state without sessions.
    pub fn new() -> (res: AppState)
        ensures
            res@ == StateView::initial(),
            res@.wf(),
    {
        let res = AppState { sessions: Vec::new(), session_counter: 0 };
        assert(res@.sessions =~= Seq::<SessionView>::empty());
        res
    }

    /// How many sessions were ever created.
    pub fn session_counter(&self) -> (res: u64)
        ensures
            res == self@.counter,
    {
        self.session_counter
    }

    /// The index of the session with the given identifier.
    fn position(&self, id: &str) -> (res: Option<usize>)
        requires
            self@.wf(),
        ensures
            res is Some <==> self@.has(id@),
            res matches Some(i) ==> self@.is_at(id@, i as int) && self@.lookup(id@)
                == self@.sessions[i as int],
    {
        for i in 0..self.sessions.len()
            invariant
                self@.wf(),
                forall|j: int| 0 <= j < i ==> !self@.is_at(id@, j),
        {
            assert(self@.sessions[i as int] == self.sessions@[i as int]@);
            if text::same_text(self.sessions[i].id.as_str(), id) {
                proof {
                    lemma_lookup(self@, id@, i as int);
                }
                return Some(i);
            }
        }
        None
    }

    /// The session with the given identifier.
    pub fn find_session(&self, id: &str) -> (res: Option<&Session>)
        requires
            self@.wf(),
        ensures
            res is Some <==> self@.has(id@),
            res matches Some(s) ==> s@ == self@.lookup(id@) && s.valid(),
    {
        match self.position(id) {
            Some(i) => {
                assert(self@.sessions[i as int] == self.sessions@[i as int]@);
                Some(&self.sessions[i])
            },
            None => None,
        }
    }

    /// Creates a new session, returning its unique identifier.
    pub fn create_session(
        &mut self,
        executable: &str,
        interval_ms: u64,
        network_enabled: bool,
        retention_secs: u64,
    ) -> (res: String)
        requires
            old(self)@.wf(),
            old(self)@.counter < u64::MAX,
        ensures
            final(self)@.wf(),
            res@ == session::session_id((old(self)@.counter + 1) as u64),
            !old(self)@.has(res@),
            exists|labelled_at: LocalTime, started_at: LocalTime|
                labelled_at.valid() && labelled_at.at.secs >= 0 && started_at.valid()
                    && started_at.at.secs >= 0 && final(self)@
                    == #[trigger] old(self)@.created(
                    executable@,
                    interval_ms,
                    network_enabled,
                    retention_secs,
                    labelled_at,
                    started_at,
                ),
    {
        let labelled_at = time::local_now();
        let started_at = time::local_now();
        self.create_session_at(
            executable,
            interval_ms,
            network_enabled,
            retention_secs,
            labelled_at,
            started_at,
        )
    }

    /// Creates a new session at the given times, returning its unique identifier.
    pub fn create_session_at(
        &mut self,
        executable: &str,
        interval_ms: u64,
        network_enabled: bool,
        retention_secs: u64,
        labelled_at: LocalTime,
        started_at: LocalTime,
    ) -> (res: String)
        requires
            old(self)@.wf(),
            old(self)@.counter < u64::MAX,
            labelled_at.valid(),
            started_at.valid(),
        ensures
            final(self)@.wf(),
            res@ == session::session_id((old(self)@.counter + 1) as u64),
            !old(self)@.has(res@),
            final(self)@ == old(self)@.created(
                executable@,
                interval_ms,
                network_enabled,
                retention_secs,
                labelled_at,
                started_at,
            ),
    {
        let ghost before = self@;
        self.session_counter = self.session_counter + 1;
        let mut label = String::from_str("Session #");
        label.append(text::decimal_string(self.session_counter).as_str());
        label.append(" – ");
        label.append(time::format_time(labelled_at, time::CLOCK).as_str());
        let session = Session::new_at(
            self.session_counter,
            label,
            String::from_str(executable),
            interval_ms,
            retention_secs,
            network_enabled,
            started_at,
        );
        let id = session.id.clone();
        self.sessions.push(session);
        proof {
            let after = before.created(
                executable@,
                interval_ms,
                network_enabled,
                retention_secs,
                labelled_at,
                started_at,
            );
            assert(self@.sessions =~= after.sessions);
            assert(after.sessions.drop_last() =~= before.sessions);
            lemma_new_id(before, after.counter);
            lemma_created_wf(before, after);
        }
        id
    }
}

proof fn lemma_new_id(state: StateView, k: u64)
    requires
        state.wf(),
        k > state.counter,
    ensures
        !state.has(session::session_id(k)),
{
    let id = session::session_id(k);
    if state.has(id) {
        let i = choose|i: int| state.is_at(id, i);
        let other = choose|other: u64| state.numbered(state.sessions[i], other);
        assert(state.numbered(state.sessions[i], other));
        law_session_ids_are_distinct(other, k);
    }
}

proof fn lemma_created_wf(before: StateView, after: StateView)
    requires
        before.wf(),
        after.sessions.len() == before.sessions.len() + 1,
        after.sessions.drop_last() == before.sessions,
        after.counter == before.counter + 1,
        after.sessions.last().id == session::session_id(after.counter),
        after.sessions.last().valid(),
        after.sessions.last().active <==> after.sessions.last().ended_at is None,
        after.sessions.last().data_points.len() <= session::MAX_POINTS,
    ensures
        after.wf(),
{
    let n = before.sessions.len() as int;
    assert(forall|i: int| 0 <= i < n ==> after.sessions[i] == before.sessions[i]);
    lemma_new_id(before, after.counter);
    assert forall|j: int| 0 <= j < after.sessions.len() implies after.has_number(
        #[trigger] after.sessions[j],
    ) by {
        if j < n {
            let k = choose|k: u64| before.numbered(before.sessions[j], k);
            assert(before.numbered(before.sessions[j], k));
            assert(after.numbered(after.sessions[j], k));
        } else {
            assert(after.numbered(after.sessions[j], after.counter));
        }
    }
    assert forall|a: int, b: int| 0 <= a < b < after.sessions.len() implies (
    #[trigger] after.sessions[a]).id != (#[trigger] after.sessions[b]).id by {
        if b == n {
            assert(!before.is_at(after.sessions[b].id, a));
        }
    }
    assert forall|a: int, b: int| 0 <= a < b < after.sessions.len() implies
        #[trigger] after.created_before(a, b) by {
        assert forall|k: u64, l: u64|
            #![trigger after.numbered(after.sessions[a], k), after.numbered(after.sessions[b], l)]
            after.numbered(after.sessions[a], k) && after.numbered(
                after.sessions[b],
                l,
            ) implies k < l by {
            let x = choose|x: u64| before.numbered(before.sessions[a], x);
            assert(before.has_number(before.sessions[a]));
            law_session_ids_are_distinct(x, k);
            if b == n {
                law_session_ids_are_distinct(l, after.counter);
            } else {
                let y = choose|y: u64| before.numbered(before.sessions[b], y);
                assert(before.has_number(before.sessions[b]));
                law_session_ids_are_distinct(y, l);
                assert(before.created_before(a, b));
                assert(before.numbered(before.sessions[a], x));
                assert(before.numbered(before.sessions[b], y));
            }
        }
    }
}

/// Sessions with different numbers have different identifiers.
pub proof fn law_session_ids_are_distinct(a: u64, b: u64)
    requires
        session::session_id(a) == session::session_id(b),
    ensures
        a == b,
{
    let prefix = "session-"@;
    let x = text::decimal(a as nat);
    let y = text::decimal(b as nat);
    assert(session::session_id(a).skip(prefix.len() as int) == x);
    assert(session::session_id(b).skip(prefix.len() as int) == y);
    text::law_decimal_is_injective(a as nat, b as nat);
}

proof fn lemma_removed_wf(state: StateView, id: Seq<char>)
    requires
        state.wf(),
    ensures
        state.removed(id).wf(),
{
    let keep = has_other_id(id);
    let after = state.removed(id);
    assert forall|i: int| 0 <= i < after.sessions.len() implies after.has_number(
        #[trigger] after.sessions[i],
    ) && after.sessions[i].valid() && after.sessions[i].data_points.len() <= session::MAX_POINTS && (
    after.sessions[i].active <==> after.sessions[i].ended_at is None) by {
        let source = sequences::lemma_filter_source(state.sessions, keep, i);
        assert(state.has_number(state.sessions[source]));
        let k = choose|k: u64| state.numbered(state.sessions[source], k);
        assert(after.numbered(after.sessions[i], k));
    }
    assert forall|a: int, b: int| 0 <= a < b < after.sessions.len() implies (
    #[trigger] after.sessions[a]).id != (#[trigger] after.sessions[b]).id by {
        let (x, y) = sequences::lemma_filter_order(state.sessions, keep, a, b);
        assert(state.sessions[x].id != state.sessions[y].id);
    }
    assert forall|a: int, b: int| 0 <= a < b < after.sessions.len() implies
        #[trigger] after.created_before(a, b) by {
        let (x, y) = sequences::lemma_filter_order(state.sessions, keep, a, b);
        assert(state.created_before(x, y));
        lemma_created_before(state, x, y, after, a, b);
    }
}

impl AppState {
    /// Marks a session as stopped. Its data remains.
    pub fn stop_session(&mut self, id: &str)
        requires
            old(self)@.wf(),
        ensures
            final(self)@.wf(),
            exists|ended_at: LocalTime|
                ended_at.valid() && ended_at.at.secs >= 0 && final(self)@ == #[trigger] old(self)@.stopped(id@, ended_at),
    {
        let ended_at = time::local_now();
        self.stop_session_at(id, ended_at);
    }

    /// Marks a session as stopped at the given time. Its data remains.
    pub fn stop_session_at(&mut self, id: &str, ended_at: LocalTime)
        requires
            old(self)@.wf(),
            ended_at.valid(),
        ensures
            final(self)@.wf(),
            final(self)@ == old(self)@.stopped(id@, ended_at),
    {
        let ghost before = self@;
        match self.position(id) {
            Some(i) => {
                assert(before.sessions[i as int] == self.sessions@[i as int]@);
                let session = &mut self.sessions[i];
                session.active = false;
                session.ended_at = Some(ended_at);
                proof {
                    let by = before.lookup(id@).stopped(ended_at);
                    assert(self@.sessions =~= before.sessions.update(i as int, by));
                    lemma_replaced(before, id@, i as int, by);
                }
            },
            None => {
                proof {
                    lemma_replaced_absent(before, id@, before.lookup(id@).stopped(ended_at));
                }
            },
        }
    }

    /// Completely removes a session and all its data.
    pub fn remove_session(&mut self, id: &str)
        requires
            old(self)@.wf(),
        ensures
            final(self)@.wf(),
            final(self)@ == old(self)@.removed(id@),
    {
        let ghost before = self@;
        let ghost all = before.sessions;
        let mut sessions: Vec<Session> = Vec::new();
        std::mem::swap(&mut sessions, &mut self.sessions);
        assert(sessions_view(sessions@) == all);
        let mut kept: Vec<Session> = Vec::new();
        reveal(Seq::filter);
        for session in it: sessions
            invariant
                all == sessions_view(it.seq()),
                sessions_view(kept@) == all.take(it.index()).filter(has_other_id(id@)),
        {
            reveal(Seq::filter);
            let ghost i = it.index();
            let ghost kept_before = kept@;
            assert(all.take(i + 1).drop_last() == all.take(i));
            assert(all.take(i + 1).last() == session@);
            if !text::same_text(session.id.as_str(), id) {
                kept.push(session);
                assert(sessions_view(kept@) =~= sessions_view(kept_before).push(session@));
            }
        }
        assert(all.take(all.len() as int) == all);
        self.sessions = kept;
        proof {
            lemma_removed_wf(before, id@);
        }
    }

    /// Checks if a session is currently active (polling).
    pub fn is_session_active(&self, id: &str) -> (res: bool)
        requires
            self@.wf(),
        ensures
            res == (self@.has(id@) && self@.lookup(id@).active),
    {
        match self.find_session(id) {
            Some(session) => session.active,
            None => false,
        }
    }

    /// Returns whether network monitoring is enabled for this session.
    pub fn is_network_enabled(&self, id: &str) -> (res: bool)
        requires
            self@.wf(),
        ensures
            res == (self@.has(id@) && self@.lookup(id@).network_enabled),
    {
        match self.find_session(id) {
            Some(session) => session.network_enabled,
            None => false,
        }
    }

    /// Appends a data point to the specified session.
    pub fn push_data_point(&mut self, id: &str, point: DataPoint)
        requires
            old(self)@.wf(),
            point.timestamp.valid(),
        ensures
            final(self)@.wf(),
            exists|now: Timestamp|
                now.valid() && now.secs >= 0 && final(self)@ == #[trigger] old(self)@.pushed(
                    id@,
                    point@,
                    now,
                ),
    {
        let now = Timestamp::now();
        self.push_data_point_at(id, point, now);
    }

    /// Appends a data point to the specified session at the given time.
    pub fn push_data_point_at(&mut self, id: &str, point: DataPoint, now: Timestamp)
        requires
            old(self)@.wf(),
            point.timestamp.valid(),
            now.valid(),
        ensures
            final(self)@.wf(),
            final(self)@ == old(self)@.pushed(id@, point@, now),
    {
        let ghost before = self@;
        let ghost by = before.lookup(id@).with_point(point@, now);
        match self.position(id) {
            Some(i) => {
                assert(before.sessions[i as int] == self.sessions@[i as int]@);
                self.sessions[i].push_point_at(point, now);
                proof {
                    assert(self@.sessions =~= before.sessions.update(i as int, by));
                    lemma_with_point_valid(before.lookup(id@), point@, now);
                    session::law_retained_is_bounded(
                        before.lookup(id@).data_points.push(point@),
                        before.lookup(id@).retention_secs,
                        now,
                    );
                    lemma_replaced(before, id@, i as int, by);
                }
            },
            None => {
                proof {
                    lemma_replaced_absent(before, id@, by);
                }
            },
        }
    }

    /// Returns lightweight session info for the frontend tab bar.
    pub fn get_session_infos(&self) -> (res: Vec<SessionInfo>)
        ensures
            res@.len() == self@.sessions.len(),
            forall|i: int|
                0 <= i < res@.len() ==> (#[trigger] res@[i])@ == self@.sessions[i].info(),
    {
        let mut res: Vec<SessionInfo> = Vec::new();
        for i in 0..self.sessions.len()
            invariant
                res@.len() == i,
                forall|j: int| 0 <= j < i ==> (#[trigger] res@[j])@ == self@.sessions[j].info(),
        {
            assert(self@.sessions[i as int] == self.sessions@[i as int]@);
            res.push(self.sessions[i].info());
        }
        res
    }

    /// Returns a full snapshot of a session's data for rendering; its means are given.
    pub fn get_session_snapshot(&self, id: &str, averages: Averages) -> (res: Option<
        SessionSnapshot,
    >)
        requires
            self@.wf(),
            self@.has(id@) ==> self@.lookup(id@).totals_fit(),
        ensures
            res is Some <==> self@.has(id@),
            res matches Some(s) ==> s@ == self@.lookup(id@).snapshot(averages),
    {
        match self.find_session(id) {
            Some(session) => Some(session.snapshot(averages)),
            None => None,
        }
    }

    /// Exports session data in the requested format.
    pub fn export_session(&self, id: &str, format: ExportFormat) -> (res: Result<Export, String>)
        requires
            self@.wf(),
        ensures
            res is Ok <==> self@.has(id@),
            res matches Ok(export) ==> export@ == self@.lookup(id@).export(format),
            res matches Err(message) ==> message@ == not_found_message(id@),
    {
        match self.find_session(id) {
            Some(session) => session.export(format),
            None => Err(String::from_str("Session not found: ").concat(id)),
        }
    }
}

proof fn lemma_replaced_absent(state: StateView, id: Seq<char>, by: SessionView)
    requires
        !state.has(id),
    ensures
        state.replaced(id, by) == state,
{
    assert forall|i: int| 0 <= i < state.sessions.len() implies (
    #[trigger] state.sessions[i]).id != id by {
        assert(!state.is_at(id, i));
    }
    assert(state.replaced(id, by).sessions =~= state.sessions);
}

/// Whether the sessions with the given identifier are the same in two states.
pub open spec fn same_session(a: StateView, b: StateView, id: Seq<char>) -> bool {
    &&& a.has(id) == b.has(id)
    &&& a.has(id) ==> a.lookup(id) == b.lookup(id)
}

proof fn lemma_replaced_lookup(state: StateView, id: Seq<char>, by: SessionView, other: Seq<char>)
    requires
        state.wf(),
        by.id == id,
        by.valid(),
        by.active <==> by.ended_at is None,
        by.data_points.len() <= session::MAX_POINTS,
    ensures
        state.has(id) ==> state.replaced(id, by).has(id) && state.replaced(id, by).lookup(id) == by,
        !state.has(id) ==> !state.replaced(id, by).has(id),
        other != id ==> same_session(state, state.replaced(id, by), other),
{
    let after = state.replaced(id, by);
    if state.has(id) {
        let i = choose|i: int| state.is_at(id, i);
        lemma_replaced(state, id, i, by);
        assert(after.is_at(id, i));
        lemma_lookup(after, id, i);
        if other != id {
            if state.has(other) {
                let j = choose|j: int| state.is_at(other, j);
                assert(after.is_at(other, j));
                lemma_lookup(after, other, j);
            }
            if after.has(other) {
                let j = choose|j: int| after.is_at(other, j);
                assert(state.is_at(other, j));
            }
        }
    } else {
        lemma_replaced_absent(state, id, by);
    }
}

/// A new session is found under its identifier: it is active, keeps the given settings and has
/// no data; every other session is as before.
pub proof fn law_created_session(
    state: StateView,
    executable: Seq<char>,
    interval_ms: u64,
    network_enabled: bool,
    retention_secs: u64,
    labelled_at: LocalTime,
    started_at: LocalTime,
    other: Seq<char>,
)
    requires
        state.wf(),
        state.counter < u64::MAX,
        started_at.valid(),
    ensures
        ({
            let id = session::session_id((state.counter + 1) as u64);
            let after = state.created(
                executable,
                interval_ms,
                network_enabled,
                retention_secs,
                labelled_at,
                started_at,
            );
            &&& !state.has(id)
            &&& after.has(id)
            &&& after.lookup(id).active
            &&& after.lookup(id).executable == executable
            &&& after.lookup(id).interval_ms == interval_ms
            &&& after.lookup(id).network_enabled == network_enabled
            &&& after.lookup(id).retention_secs == retention_secs
            &&& after.lookup(id).data_points.len() == 0
            &&& other != id ==> same_session(state, after, other)
        }),
{
    let id = session::session_id((state.counter + 1) as u64);
    let after = state.created(
        executable,
        interval_ms,
        network_enabled,
        retention_secs,
        labelled_at,
        started_at,
    );
    let n = state.sessions.len() as int;
    assert(after.sessions.drop_last() =~= state.sessions);
    lemma_new_id(state, after.counter);
    lemma_created_wf(state, after);
    assert(after.is_at(id, n));
    lemma_lookup(after, id, n);
    if other != id {
        if state.has(other) {
            let j = choose|j: int| state.is_at(other, j);
            assert(after.is_at(other, j));
            lemma_lookup(after, other, j);
        }
        if after.has(other) {
            let j = choose|j: int| after.is_at(other, j);
            assert(state.is_at(other, j));
        }
    }
}

/// A session is active exactly while it has no end.
pub proof fn law_active_until_the_end(state: StateView, id: Seq<char>)
    requires
        state.wf(),
        state.has(id),
    ensures
        state.lookup(id).active <==> state.lookup(id).ended_at is None,
{
    let i = choose|i: int| state.is_at(id, i);
    lemma_lookup(state, id, i);
}

/// Sessions stand in the order of their numbers.
pub proof fn law_sessions_stand_in_order(state: StateView, i: int, j: int, k: u64, l: u64)
    requires
        state.wf(),
        0 <= i < j < state.sessions.len(),
        state.sessions[i].id == session::session_id(k),
        state.sessions[j].id == session::session_id(l),
    ensures
        k < l <= state.counter,
{
    assert(state.has_number(state.sessions[i]) && state.has_number(state.sessions[j]));
    let x = choose|x: u64| state.numbered(state.sessions[i], x);
    let y = choose|y: u64| state.numbered(state.sessions[j], y);
    law_session_ids_are_distinct(x, k);
    law_session_ids_are_distinct(y, l);
    assert(state.created_before(i, j));
    assert(state.numbered(state.sessions[i], k) && state.numbered(state.sessions[j], l));
}

/// Identifiers are never used twice: whatever happens between, the identifier of a session that is
/// created later differs from that of one created earlier.
pub proof fn law_ids_are_never_reused(earlier: StateView, later: StateView)
    requires
        earlier.counter < later.counter < u64::MAX,
    ensures
        session::session_id((earlier.counter + 1) as u64) != session::session_id(
            (later.counter + 1) as u64,
        ),
{
    if session::session_id((earlier.counter + 1) as u64) == session::session_id(
        (later.counter + 1) as u64,
    ) {
        law_session_ids_are_distinct((earlier.counter + 1) as u64, (later.counter + 1) as u64);
    }
}

/// A stopped session is no longer active and has an end, its data remains, and every other session
/// is as before.
pub proof fn law_stopped_session(
    state: StateView,
    id: Seq<char>,
    ended_at: LocalTime,
    other: Seq<char>,
)
    requires
        state.wf(),
        state.has(id),
        ended_at.valid(),
    ensures
        state.stopped(id, ended_at).has(id),
        !state.stopped(id, ended_at).lookup(id).active,
        state.stopped(id, ended_at).lookup(id).ended_at == Some(ended_at),
        state.stopped(id, ended_at).lookup(id).data_points == state.lookup(id).data_points,
        other != id ==> same_session(state, state.stopped(id, ended_at), other),
{
    let i = choose|i: int| state.is_at(id, i);
    lemma_lookup(state, id, i);
    lemma_replaced_lookup(state, id, state.lookup(id).stopped(ended_at), other);
}

/// A session that is not active stays so, whatever else happens: measurements, stops, removals and
/// the creation of sessions.
pub proof fn law_stopped_stays_stopped(
    state: StateView,
    id: Seq<char>,
    at: Seq<char>,
    point: DataPointView,
    now: Timestamp,
    clock: LocalTime,
    executable: Seq<char>,
    interval_ms: u64,
    network_enabled: bool,
    retention_secs: u64,
)
    requires
        state.wf(),
        state.has(id),
        !state.lookup(id).active,
        point.timestamp.valid(),
        clock.valid(),
    ensures
        state.pushed(at, point, now).has(id) && !state.pushed(at, point, now).lookup(id).active,
        state.stopped(at, clock).has(id) && !state.stopped(at, clock).lookup(id).active,
        state.removed(at).has(id) ==> !state.removed(at).lookup(id).active,
        state.counter < u64::MAX ==> ({
            let after = state.created(
                executable,
                interval_ms,
                network_enabled,
                retention_secs,
                clock,
                clock,
            );
            after.has(id) && !after.lookup(id).active
        }),
{
    law_pushed_session(state, at, point, now, id);
    if state.has(at) {
        law_stopped_session(state, at, clock, id);
    } else {
        lemma_replaced_absent(state, at, state.lookup(at).stopped(clock));
    }
    law_removed_session(state, at, id);
    if state.counter < u64::MAX {
        law_created_session(
            state,
            executable,
            interval_ms,
            network_enabled,
            retention_secs,
            clock,
            clock,
            id,
        );
    }
}

/// A removed session is gone with all its data, and every other session is as before.
pub proof fn law_removed_session(state: StateView, id: Seq<char>, other: Seq<char>)
    requires
        state.wf(),
    ensures
        !state.removed(id).has(id),
        other != id ==> same_session(state, state.removed(id), other),
{
    let after = state.removed(id);
    let keep = has_other_id(id);
    lemma_removed_wf(state, id);
    if after.has(id) {
        let i = choose|i: int| after.is_at(id, i);
        let source = sequences::lemma_filter_source(state.sessions, keep, i);
    }
    if other != id {
        if state.has(other) {
            let i = choose|i: int| state.is_at(other, i);
            lemma_lookup(state, other, i);
            let target = sequences::lemma_filter_keeps(state.sessions, keep, i);
            assert(after.is_at(other, target));
            lemma_lookup(after, other, target);
        }
        if after.has(other) {
            let i = choose|i: int| after.is_at(other, i);
            let source = sequences::lemma_filter_source(state.sessions, keep, i);
            assert(state.is_at(other, source));
        }
    }
}

/// A measurement reaches its session alone: there it is retained with the others, all else in that
/// session stays, and every other session is as before.
pub proof fn law_pushed_session(
    state: StateView,
    id: Seq<char>,
    point: DataPointView,
    now: Timestamp,
    other: Seq<char>,
)
    requires
        state.wf(),
        point.timestamp.valid(),
    ensures
        state.has(id) ==> state.pushed(id, point, now).has(id) && state.pushed(
            id,
            point,
            now,
        ).lookup(id) == (SessionView {
            data_points: session::retained(
                state.lookup(id).data_points.push(point),
                state.lookup(id).retention_secs,
                now,
            ),
            ..state.lookup(id)
        }),
        !state.has(id) ==> state.pushed(id, point, now) == state,
        other != id ==> same_session(state, state.pushed(id, point, now), other),
{
    let by = state.lookup(id).with_point(point, now);
    if state.has(id) {
        let i = choose|i: int| state.is_at(id, i);
        lemma_lookup(state, id, i);
        lemma_with_point_valid(state.lookup(id), point, now);
        session::law_retained_is_bounded(
            state.lookup(id).data_points.push(point),
            state.lookup(id).retention_secs,
            now,
        );
        lemma_replaced_lookup(state, id, by, other);
    } else {
        lemma_replaced_absent(state, id, by);
    }
}

/// Sessions are looked up by their identifiers: there is one exactly if some session bears it, and it
/// is that one.
pub proof fn law_lookup(state: StateView, id: Seq<char>, i: int)
    requires
        state.wf(),
    ensures
        state.has(id) <==> exists|j: int|
            0 <= j < state.sessions.len() && (#[trigger] state.sessions[j]).id == id,
        0 <= i < state.sessions.len() && state.sessions[i].id == id ==> state.lookup(id)
            == state.sessions[i],
        not_found_message(id) == "Session not found: "@ + id,
{
    if state.has(id) {
        let j = choose|j: int| state.is_at(id, j);
        assert(state.sessions[j].id == id);
    }
    if exists|j: int| 0 <= j < state.sessions.len() && (#[trigger] state.sessions[j]).id == id {
        let j = choose|j: int|
            0 <= j < state.sessions.len() && (#[trigger] state.sessions[j]).id == id;
        assert(state.is_at(id, j));
    }
    if 0 <= i < state.sessions.len() && state.sessions[i].id == id {
        lemma_lookup(state, id, i);
    }
}

/// A session is created after all others, with the next number. Its label names that number and the
/// time of day, and all that it was given stands in it.
pub proof fn law_creation(
    state: StateView,
    executable: Seq<char>,
    interval_ms: u64,
    network_enabled: bool,
    retention_secs: u64,
    labelled_at: LocalTime,
    started_at: LocalTime,
)
    requires
        state.counter < u64::MAX,
    ensures
        ({
            let after = state.created(
                executable,
                interval_ms,
                network_enabled,
                retention_secs,
                labelled_at,
                started_at,
            );
            let number = text::decimal((state.counter + 1) as nat);
            &&& after.counter == state.counter + 1
            &&& after.sessions == state.sessions.push(
                SessionView {
                    id: "session-"@ + number,
                    label: "Session #"@ + number + " – "@ + time::clock_text(labelled_at),
                    executable,
                    interval_ms,
                    retention_secs,
                    active: true,
                    network_enabled,
                    started_at,
                    ended_at: None,
                    data_points: Seq::empty(),
                },
            )
        }),
{
}

/// No operation but creation changes how many sessions were created, or where a session stands; a
/// stop and a measurement concern the session with the given identifier alone, and leave its
/// settings as they are.
pub proof fn law_operations_touch_one_session(
    state: StateView,
    id: Seq<char>,
    ended_at: LocalTime,
    point: DataPointView,
    now: Timestamp,
    i: int,
)
    requires
        state.wf(),
        0 <= i < state.sessions.len(),
    ensures
        state.stopped(id, ended_at).counter == state.counter,
        state.removed(id).counter == state.counter,
        state.pushed(id, point, now).counter == state.counter,
        state.stopped(id, ended_at).sessions.len() == state.sessions.len(),
        state.pushed(id, point, now).sessions.len() == state.sessions.len(),
        state.sessions[i].id != id ==> state.stopped(id, ended_at).sessions[i]
            == state.sessions[i] && state.pushed(id, point, now).sessions[i] == state.sessions[i],
        state.sessions[i].id == id ==> state.stopped(id, ended_at).sessions[i] == (SessionView {
            active: false,
            ended_at: Some(ended_at),
            ..state.sessions[i]
        }),
        state.sessions[i].id == id ==> state.pushed(id, point, now).sessions[i] == (SessionView {
            data_points: state.pushed(id, point, now).sessions[i].data_points,
            ..state.sessions[i]
        }),
        state.sessions[i].id == id ==> state.pushed(id, point, now).sessions[i]
            == state.sessions[i].with_point(point, now),
        state.removed(id).sessions == state.sessions.filter(|s: SessionView| s.id != id),
{
    if state.sessions[i].id == id {
        lemma_lookup(state, id, i);
    }
    lemma_same_removed(state.sessions, id);
}

proof fn lemma_same_removed(sessions: Seq<SessionView>, id: Seq<char>)
    ensures
        sessions.filter(has_other_id(id)) == sessions.filter(|s: SessionView| s.id != id),
    decreases sessions.len(),
{
    reveal(Seq::filter);
    if sessions.len() > 0 {
        lemma_same_removed(sessions.drop_last(), id);
    }
}

/// At first there are no sessions, and none was created.
pub proof fn law_initial_state()
    ensures
        StateView::initial().sessions.len() == 0,
        StateView::initial().counter == 0,
        StateView::initial().wf(),
{
}

/// The views of sessions stand in their order.
pub proof fn law_sessions_view(sessions: Seq<Session>, i: int)
    requires
        0 <= i < sessions.len(),
    ensures
        sessions_view(sessions).len() == sessions.len(),
        sessions_view(sessions)[i] == sessions[i]@,
{
}

} // verus!
