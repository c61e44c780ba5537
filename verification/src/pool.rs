//! The sessions of a client: those in use, and those that wait to be used again.
use crate::session::next_u64;
use vstd::prelude::*;

verus! {

/// A session that waits to be used again.
#[derive(Debug, Clone, Copy, PartialEq, Eq, Structural)]
pub struct IdleSession {
    /// The number of the session.
    pub seq: u64,
    /// Since when it waits, in nanoseconds on the clock of the caller.
    pub idle_since: u128,
}

/// Where the next session comes from.
#[derive(Debug, Clone, Copy, PartialEq, Eq, Structural)]
pub enum SessionChoice {
    /// It is the idle session with this number.
    Reuse(u64),
    /// A new connection is to be made.
    Create,
}

/// An order of the idle sessions.
#[derive(Debug, Clone, Copy, PartialEq, Eq, Structural)]
pub enum IdleOrder {
    NewestFirst,
    LongestIdleFirst,
}

impl IdleOrder {
    /// What the order goes by, from small to large.
    pub open spec fn key(self, session: IdleSession) -> int {
        match self {
            IdleOrder::NewestFirst => -(session.seq as int),
            IdleOrder::LongestIdleFirst => session.idle_since as int,
        }
    }

    /// `line` with `session` behind the last one that does not come after it.
    pub open spec fn insert(self, line: Seq<IdleSession>, session: IdleSession) -> Seq<IdleSession>
        decreases line.len(),
    {
        if line.len() == 0 || self.key(line.last()) <= self.key(session) {
            line.push(session)
        } else {
            self.insert(line.drop_last(), session).push(line.last())
        }
    }

    /// The sessions in this order; those of equal rank stay as they stood.
    pub open spec fn sorted(self, sessions: Seq<IdleSession>) -> Seq<IdleSession>
        decreases sessions.len(),
    {
        if sessions.len() == 0 {
            Seq::empty()
        } else {
            self.insert(self.sorted(sessions.drop_last()), sessions.last())
        }
    }

    fn after(self, a: IdleSession, b: IdleSession) -> (r: bool)
        ensures
            r == (self.key(a) > self.key(b)),
    {
        match self {
            IdleOrder::NewestFirst => a.seq < b.seq,
            IdleOrder::LongestIdleFirst => a.idle_since > b.idle_since,
        }
    }

    fn sort(self, sessions: &Vec<IdleSession>) -> (line: Vec<IdleSession>)
        ensures
            line@ == self.sorted(sessions@),
    {
        let mut line: Vec<IdleSession> = Vec::new();
        let mut i: usize = 0;
        assert(sessions@.take(0) =~= Seq::empty());
        while i < sessions.len()
            invariant
                i <= sessions@.len(),
                line@ == self.sorted(sessions@.take(i as int)),
            decreases sessions@.len() - i,
        {
            let session: IdleSession = sessions[i];
            let mut at: usize = line.len();
            while at > 0 && self.after(line[at - 1], session)
                invariant
                    at <= line@.len(),
                    forall|j: int|
                        at <= j < line@.len() ==> self.key(#[trigger] line@[j]) > self.key(session),
                decreases at,
            {
                at = at - 1;
            }
            proof {
                lemma_insert_at(self, line@, session, at as int);
                assert(sessions@.take(i + 1).drop_last() =~= sessions@.take(i as int));
            }
            line.insert(at, session);
            i = i + 1;
        }
        assert(sessions@.take(i as int) =~= sessions@);
        line
    }
}

proof fn lemma_insert_at(order: IdleOrder, line: Seq<IdleSession>, session: IdleSession, at: int)
    requires
        0 <= at <= line.len(),
        forall|j: int|
            at <= j < line.len() ==> order.key(#[trigger] line[j]) > order.key(session),
        at > 0 ==> order.key(line[at - 1]) <= order.key(session),
    ensures
        order.insert(line, session) == line.insert(at, session),
    decreases line.len(),
{
    if at == line.len() {
        assert(line.insert(at, session) =~= line.push(session));
    } else {
        let front = line.drop_last();
        assert(order.key(line[line.len() - 1]) > order.key(session));
        assert forall|j: int| at <= j < front.len() implies order.key(#[trigger] front[j])
            > order.key(session) by {
            assert(front[j] == line[j]);
        }
        lemma_insert_at(order, front, session, at);
        assert(front.insert(at, session).push(line.last()) =~= line.insert(at, session));
    }
}

/// Whether a session has waited for longer than `timeout`.
pub open spec fn expired(session: IdleSession, now: u128, timeout: u128) -> bool {
    now - session.idle_since > timeout
}

/// How many sessions at the front of `line` have waited for too long.
pub open spec fn expired_front(line: Seq<IdleSession>, now: u128, timeout: u128) -> nat
    decreases line.len(),
{
    if line.len() > 0 && expired(line[0], now, timeout) {
        1 + expired_front(line.drop_first(), now, timeout)
    } else {
        0
    }
}

/// How many sessions a cleanup closes: those that have waited for too long, as
/// long as `min_idle` are left.
pub open spec fn closed_count(
    line: Seq<IdleSession>,
    now: u128,
    timeout: u128,
    min_idle: nat,
) -> nat {
    let spare = if line.len() <= min_idle {
        0
    } else {
        (line.len() - min_idle) as nat
    };
    let late = expired_front(line, now, timeout);
    if late <= spare {
        late
    } else {
        spare
    }
}

/// The numbers but for `seq`, in their order.
pub open spec fn without(numbers: Seq<u64>, seq: u64) -> Seq<u64> {
    numbers.filter(|s: u64| s != seq)
}

/// The sessions of a client, as the contracts see them.
#[verifier::ext_equal]
pub struct PoolView {
    pub active: Seq<u64>,
    pub idle: Seq<IdleSession>,
    /// The number of the next session.
    pub session_seq: u64,
}

/// The sessions of a client.
pub struct SessionPool {
    active: Vec<u64>,
    idle: Vec<IdleSession>,
    session_seq: u64,
}

impl View for SessionPool {
    type V = PoolView;

    closed spec fn view(&self) -> PoolView {
        PoolView { active: self.active@, idle: self.idle@, session_seq: self.session_seq }
    }
}

impl PoolView {
    pub open spec fn empty() -> PoolView {
        PoolView { active: Seq::empty(), idle: Seq::empty(), session_seq: 0 }
    }

    /// The idle session that is tried first.
    pub open spec fn candidate(self) -> Option<u64> {
        if self.idle.len() == 0 {
            None
        } else {
            Some(IdleOrder::NewestFirst.sorted(self.idle)[0].seq)
        }
    }

    /// The choice of the next session, and the pool after it. An idle session
    /// that turned out to be dead is dropped, and no other is tried.
    pub open spec fn choose_session(self, candidate_dead: bool) -> (SessionChoice, PoolView) {
        if self.idle.len() == 0 {
            (SessionChoice::Create, self)
        } else {
            let line = IdleOrder::NewestFirst.sorted(self.idle);
            let rest = PoolView { idle: line.drop_first(), ..self };
            if candidate_dead {
                (SessionChoice::Create, rest)
            } else {
                (
                    SessionChoice::Reuse(line[0].seq),
                    PoolView { active: self.active.push(line[0].seq), ..rest },
                )
            }
        }
    }

    /// The pool with the next number taken.
    pub open spec fn numbered(self) -> PoolView {
        PoolView { session_seq: next_u64(self.session_seq), ..self }
    }

    pub open spec fn with_active(self, seq: u64) -> PoolView {
        PoolView { active: self.active.push(seq), ..self }
    }

    /// The pool after a session is no longer used; a dead one is forgotten.
    pub open spec fn marked_idle(self, seq: u64, dead: bool, now: u128) -> PoolView {
        PoolView {
            active: without(self.active, seq),
            idle: if dead {
                self.idle
            } else {
                self.idle.push(IdleSession { seq, idle_since: now })
            },
            ..self
        }
    }

    /// The numbers of the sessions that a cleanup closes, and the pool after it.
    pub open spec fn cleaned(self, now: u128, timeout: u128, min_idle: nat) -> (
        Seq<u64>,
        PoolView,
    ) {
        let line = IdleOrder::LongestIdleFirst.sorted(self.idle);
        let count = closed_count(line, now, timeout, min_idle);
        (
            line.take(count as int).map_values(|s: IdleSession| s.seq),
            PoolView { idle: line.skip(count as int), ..self },
        )
    }
}

proof fn lemma_sorted_len(order: IdleOrder, sessions: Seq<IdleSession>)
    ensures
        order.sorted(sessions).len() == sessions.len(),
    decreases sessions.len(),
{
    if sessions.len() > 0 {
        lemma_sorted_len(order, sessions.drop_last());
        lemma_insert_len(order, order.sorted(sessions.drop_last()), sessions.last());
    }
}

proof fn lemma_insert_len(order: IdleOrder, line: Seq<IdleSession>, session: IdleSession)
    ensures
        order.insert(line, session).len() == line.len() + 1,
    decreases line.len(),
{
    if line.len() > 0 && order.key(line.last()) > order.key(session) {
        lemma_insert_len(order, line.drop_last(), session);
    }
}

impl SessionPool {
    pub fn new() -> (pool: SessionPool)
        ensures
            pool@ == PoolView::empty(),
    {
        SessionPool { active: Vec::new(), idle: Vec::new(), session_seq: 0 }
    }

    /// The idle session that is tried first: the one with the highest number.
    pub fn candidate(&self) -> (seq: Option<u64>)
        ensures
            seq == self@.candidate(),
    {
        if self.idle.len() == 0 {
            return None;
        }
        let line: Vec<IdleSession> = IdleOrder::NewestFirst.sort(&self.idle);
        proof {
            lemma_sorted_len(IdleOrder::NewestFirst, self.idle@);
        }
        Some(line[0].seq)
    }

    /// Chooses the next session. `candidate_dead` says whether the session that
    /// `candidate` named is dead.
    pub fn get_session(&mut self, candidate_dead: bool) -> (choice: SessionChoice)
        ensures
            (choice, final(self)@) == old(self)@.choose_session(candidate_dead),
    {
        if self.idle.len() == 0 {
            return SessionChoice::Create;
        }
        let mut line: Vec<IdleSession> = IdleOrder::NewestFirst.sort(&self.idle);
        proof {
            lemma_sorted_len(IdleOrder::NewestFirst, self.idle@);
        }
        let ghost before = line@;
        let first: IdleSession = line.remove(0);
        assert(line@ =~= before.drop_first());
        self.idle = line;
        if candidate_dead {
            SessionChoice::Create
        } else {
            self.active.push(first.seq);
            SessionChoice::Reuse(first.seq)
        }
    }

    /// Takes the number for a new session.
    pub fn next_session_seq(&mut self) -> (seq: u64)
        ensures
            seq == old(self)@.session_seq,
            final(self)@ == old(self)@.numbered(),
    {
        let seq: u64 = self.session_seq;
        self.session_seq = seq.wrapping_add(1);
        seq
    }

    /// Notes that the connection of a new session was made.
    pub fn session_created(&mut self, seq: u64)
        ensures
            final(self)@ == old(self)@.with_active(seq),
    {
        self.active.push(seq);
    }

    /// Notes that a session is no longer used.
    pub fn mark_idle(&mut self, seq: u64, dead: bool, now: u128)
        ensures
            final(self)@ == old(self)@.marked_idle(seq, dead, now),
    {
        let mut kept: Vec<u64> = Vec::new();
        let mut i: usize = 0;
        proof {
            reveal(Seq::filter);
            assert(self.active@.take(0) =~= Seq::empty());
        }
        while i < self.active.len()
            invariant
                i <= self.active@.len(),
                kept@ == without(self.active@.take(i as int), seq),
            decreases self.active@.len() - i,
        {
            proof {
                reveal(Seq::filter);
                assert(self.active@.take(i + 1).drop_last() =~= self.active@.take(i as int));
            }
            if self.active[i] != seq {
                kept.push(self.active[i]);
            }
            i = i + 1;
        }
        assert(self.active@.take(i as int) =~= self.active@);
        self.active = kept;
        if !dead {
            self.idle.push(IdleSession { seq, idle_since: now });
        }
    }

    /// Drops the sessions that have been idle for longer than `timeout`, as long
    /// as `min_idle` stay, and returns their numbers: they are to be closed.
    pub fn cleanup(&mut self, now: u128, timeout: u128, min_idle: usize) -> (closed: Vec<u64>)
        ensures
            (closed@, final(self)@) == old(self)@.cleaned(now, timeout, min_idle as nat),
    {
        let mut line: Vec<IdleSession> = IdleOrder::LongestIdleFirst.sort(&self.idle);
        let ghost all = line@;
        let keep: usize = if min_idle <= line.len() {
            min_idle
        } else {
            line.len()
        };
        let spare: usize = line.len() - keep;
        let mut closed: Vec<u64> = Vec::new();
        let mut count: usize = 0;
        assert(all.skip(0) =~= all);
        while count < spare && now > line[count].idle_since && now - line[count].idle_since
            > timeout
            invariant
                count <= spare <= line@.len(),
                all == line@,
                closed@ =~= all.take(count as int).map_values(|s: IdleSession| s.seq),
                expired_front(all, now, timeout) == count + expired_front(
                    all.skip(count as int),
                    now,
                    timeout,
                ),
            decreases spare - count,
        {
            assert(all.skip(count as int)[0] == all[count as int]);
            assert(all.skip(count as int).drop_first() =~= all.skip(count + 1));
            closed.push(line[count].seq);
            count = count + 1;
        }
        proof {
            if count < spare {
                assert(all.skip(count as int)[0] == all[count as int]);
                assert(!expired(all[count as int], now, timeout));
            }
            assert(count == closed_count(all, now, timeout, min_idle as nat));
        }
        let kept: Vec<IdleSession> = line.split_off(count);
        assert(kept@ =~= all.skip(count as int));
        self.idle = kept;
        closed
    }
}

/// The sessions of one rank, in the order in which they stand.
pub open spec fn of_rank(order: IdleOrder, line: Seq<IdleSession>, rank: int) -> Seq<IdleSession> {
    line.filter(|s: IdleSession| order.key(s) == rank)
}

pub open spec fn in_order(order: IdleOrder, line: Seq<IdleSession>) -> bool {
    forall|i: int, j: int|
        0 <= i < j < line.len() ==> order.key(#[trigger] line[i]) <= order.key(#[trigger] line[j])
}

/// No two of the sessions have the same number.
pub open spec fn distinct(line: Seq<IdleSession>) -> bool {
    forall|i: int, j: int|
        0 <= i < j < line.len() ==> (#[trigger] line[i]).seq != (#[trigger] line[j]).seq
}

/// A session with this number is idle.
pub open spec fn has_seq(line: Seq<IdleSession>, seq: u64) -> bool {
    exists|i: int| 0 <= i < line.len() && (#[trigger] line[i]).seq == seq
}

proof fn lemma_rank_push(
    order: IdleOrder,
    line: Seq<IdleSession>,
    session: IdleSession,
    rank: int,
)
    ensures
        of_rank(order, line.push(session), rank) == (if order.key(session) == rank {
            of_rank(order, line, rank).push(session)
        } else {
            of_rank(order, line, rank)
        }),
{
    reveal(Seq::filter);
    assert(line.push(session).drop_last() =~= line);
}

proof fn lemma_insert(order: IdleOrder, line: Seq<IdleSession>, session: IdleSession)
    requires
        in_order(order, line),
    ensures
        in_order(order, order.insert(line, session)),
        order.insert(line, session).len() == line.len() + 1,
        forall|i: int|
            0 <= i <= line.len() ==> #[trigger] order.insert(line, session)[i] == session
                || exists|j: int| 0 <= j < line.len() && line[j] == order.insert(line, session)[i],
        forall|seq: u64| #[trigger]
            has_seq(order.insert(line, session), seq) <==> has_seq(line, seq) || seq == session.seq,
        distinct(line) && !has_seq(line, session.seq) ==> distinct(order.insert(line, session)),
        forall|rank: int| #[trigger]
            of_rank(order, order.insert(line, session), rank) == of_rank(
                order,
                line.push(session),
                rank,
            ),
    decreases line.len(),
{
    let longer = order.insert(line, session);
    let pushed = line.push(session);
    if line.len() == 0 || order.key(line.last()) <= order.key(session) {
        assert forall|i: int| 0 <= i <= line.len() implies #[trigger] longer[i] == session || exists|
            j: int,
        |
            0 <= j < line.len() && line[j] == longer[i] by {
            if i < line.len() {
                assert(line[i] == longer[i]);
            }
        }
        assert forall|seq: u64| #[trigger] has_seq(longer, seq) == (has_seq(line, seq) || seq
            == session.seq) by {
            if has_seq(line, seq) {
                let i = choose|i: int| 0 <= i < line.len() && (#[trigger] line[i]).seq == seq;
                assert(longer[i].seq == seq);
            }
            if seq == session.seq {
                assert(longer[line.len() as int].seq == seq);
            }
        }
        assert forall|i: int, j: int| 0 <= i < j < longer.len() implies order.key(
            #[trigger] longer[i],
        ) <= order.key(#[trigger] longer[j]) by {
            if j == line.len() {
                assert(order.key(line[i]) <= order.key(line.last()));
            }
        }
        if distinct(line) && !has_seq(line, session.seq) {
            assert forall|i: int, j: int| 0 <= i < j < longer.len() implies (#[trigger] longer[i]).seq
                != (#[trigger] longer[j]).seq by {
                assert(line[i].seq != session.seq);
            }
        }
    } else {
        let front = line.drop_last();
        let last = line.last();
        let shorter = order.insert(front, session);
        assert(in_order(order, front)) by {
            assert forall|i: int, j: int| 0 <= i < j < front.len() implies order.key(
                #[trigger] front[i],
            ) <= order.key(#[trigger] front[j]) by {
                assert(front[i] == line[i] && front[j] == line[j]);
            }
        }
        lemma_insert(order, front, session);
        assert(longer == shorter.push(last));
        assert(longer.drop_last() =~= shorter);
        assert forall|i: int| 0 <= i <= line.len() implies #[trigger] longer[i] == session || exists|
            j: int,
        |
            0 <= j < line.len() && line[j] == longer[i] by {
            if i < line.len() {
                assert(shorter[i] == longer[i]);
                if shorter[i] != session {
                    let j = choose|j: int| 0 <= j < front.len() && front[j] == shorter[i];
                    assert(line[j] == longer[i]);
                }
            } else {
                assert(line[line.len() - 1] == longer[i]);
            }
        }
        assert forall|seq: u64| #[trigger] has_seq(longer, seq) == (has_seq(line, seq) || seq
            == session.seq) by {
            if has_seq(longer, seq) {
                let i = choose|i: int| 0 <= i < longer.len() && (#[trigger] longer[i]).seq == seq;
                if i < line.len() {
                    assert(shorter[i].seq == seq);
                    assert(has_seq(shorter, seq));
                    if has_seq(front, seq) {
                        let k = choose|k: int| 0 <= k < front.len() && (#[trigger] front[k]).seq == seq;
                        assert(line[k].seq == seq);
                    }
                } else {
                    assert(line[line.len() - 1].seq == seq);
                }
            }
            if has_seq(line, seq) {
                let i = choose|i: int| 0 <= i < line.len() && (#[trigger] line[i]).seq == seq;
                if i < front.len() {
                    assert(front[i].seq == seq);
                    assert(has_seq(shorter, seq));
                } else {
                    assert(longer[line.len() as int].seq == seq);
                }
            }
            if seq == session.seq {
                assert(has_seq(shorter, seq));
            }
            if has_seq(shorter, seq) {
                let i = choose|i: int| 0 <= i < shorter.len() && (#[trigger] shorter[i]).seq == seq;
                assert(longer[i].seq == seq);
            }
        }
        assert forall|i: int, j: int| 0 <= i < j < longer.len() implies order.key(
            #[trigger] longer[i],
        ) <= order.key(#[trigger] longer[j]) by {
            assert(shorter[i] == longer[i]);
            if j < line.len() {
                assert(shorter[j] == longer[j]);
            } else if shorter[i] != session {
                let k = choose|k: int| 0 <= k < front.len() && front[k] == shorter[i];
                assert(line[k] == longer[i]);
                assert(order.key(line[k]) <= order.key(line[line.len() - 1]));
            }
        }
        if distinct(line) && !has_seq(line, session.seq) {
            assert(distinct(front)) by {
                assert forall|i: int, j: int| 0 <= i < j < front.len() implies (#[trigger] front[i]).seq
                    != (#[trigger] front[j]).seq by {
                    assert(line[i].seq != line[j].seq);
                }
            }
            assert(!has_seq(front, session.seq)) by {
                if has_seq(front, session.seq) {
                    let k = choose|k: int|
                        0 <= k < front.len() && (#[trigger] front[k]).seq == session.seq;
                    assert(line[k].seq == session.seq);
                }
            }
            assert(last.seq != session.seq) by {
                assert(line[line.len() - 1].seq != session.seq);
            }
            assert forall|i: int, j: int| 0 <= i < j < longer.len() implies (#[trigger] longer[i]).seq
                != (#[trigger] longer[j]).seq by {
                assert(shorter[i] == longer[i]);
                if j < line.len() {
                    assert(shorter[j] == longer[j]);
                } else if shorter[i] != session {
                    let k = choose|k: int| 0 <= k < front.len() && front[k] == shorter[i];
                    assert(line[k].seq != line[line.len() - 1].seq);
                }
            }
        }
        assert forall|rank: int| #[trigger] of_rank(order, longer, rank) == of_rank(
            order,
            pushed,
            rank,
        ) by {
            assert(of_rank(order, shorter, rank) == of_rank(order, front.push(session), rank));
            assert(line =~= front.push(last));
            lemma_rank_push(order, front, session, rank);
            lemma_rank_push(order, front, last, rank);
            lemma_rank_push(order, shorter, last, rank);
            lemma_rank_push(order, line, session, rank);
        }
    }
}

/// Sorting orders the sessions and keeps them: the same ones, and those of equal
/// rank as they stood.
pub proof fn law_sorted(order: IdleOrder, sessions: Seq<IdleSession>)
    ensures
        in_order(order, order.sorted(sessions)),
        order.sorted(sessions).len() == sessions.len(),
        forall|rank: int| #[trigger]
            of_rank(order, order.sorted(sessions), rank) == of_rank(order, sessions, rank),
        forall|seq: u64| #[trigger]
            has_seq(order.sorted(sessions), seq) <==> has_seq(sessions, seq),
        distinct(sessions) ==> distinct(order.sorted(sessions)),
    decreases sessions.len(),
{
    if sessions.len() == 0 {
        assert(sessions =~= Seq::empty());
    } else {
        let front = sessions.drop_last();
        let last = sessions.last();
        let line = order.sorted(front);
        law_sorted(order, front);
        lemma_insert(order, line, last);
        assert(front.push(last) =~= sessions);
        assert forall|rank: int| #[trigger] of_rank(order, order.sorted(sessions), rank) == of_rank(
            order,
            sessions,
            rank,
        ) by {
            assert(of_rank(order, line, rank) == of_rank(order, front, rank));
            assert(of_rank(order, order.insert(line, last), rank) == of_rank(
                order,
                line.push(last),
                rank,
            ));
            lemma_rank_push(order, line, last, rank);
            lemma_rank_push(order, front, last, rank);
        }
        assert forall|seq: u64| #[trigger] has_seq(order.sorted(sessions), seq) == has_seq(sessions, seq) by {
            assert(has_seq(line, seq) == has_seq(front, seq));
            assert(has_seq(sessions, seq) == (has_seq(front, seq) || seq == last.seq)) by {
                if has_seq(sessions, seq) {
                    let i = choose|i: int|
                        0 <= i < sessions.len() && (#[trigger] sessions[i]).seq == seq;
                    if i < front.len() {
                        assert(front[i].seq == seq);
                    }
                }
                if has_seq(front, seq) {
                    let i = choose|i: int| 0 <= i < front.len() && (#[trigger] front[i]).seq == seq;
                    assert(sessions[i].seq == seq);
                }
                if seq == last.seq {
                    assert(sessions[sessions.len() - 1].seq == seq);
                }
            }
        }
        if distinct(sessions) {
            assert forall|i: int, j: int| 0 <= i < j < front.len() implies (#[trigger] front[i]).seq
                != (#[trigger] front[j]).seq by {
                assert(sessions[i].seq != sessions[j].seq);
            }
            if has_seq(front, last.seq) {
                let i = choose|i: int| 0 <= i < front.len() && (#[trigger] front[i]).seq == last.seq;
                assert(sessions[i].seq != sessions[sessions.len() - 1].seq);
            }
        }
    }
}

impl PoolView {
    /// Every session stands once, in use or idle, under a number that was handed out.
    pub open spec fn consistent(self) -> bool {
        &&& forall|i: int, j: int|
            0 <= i < j < self.active.len() ==> #[trigger] self.active[i] != #[trigger] self.active[j]
        &&& distinct(self.idle)
        &&& forall|i: int|
            0 <= i < self.active.len() ==> !has_seq(self.idle, #[trigger] self.active[i])
        &&& forall|i: int|
            0 <= i < self.active.len() ==> #[trigger] self.active[i] < self.session_seq
        &&& forall|i: int|
            0 <= i < self.idle.len() ==> (#[trigger] self.idle[i]).seq < self.session_seq
    }
}

/// A part of a line holds no more numbers than the line, and they are as distinct.
proof fn lemma_part(line: Seq<IdleSession>, from: int, to: int)
    requires
        0 <= from <= to <= line.len(),
    ensures
        distinct(line) ==> distinct(line.subrange(from, to)),
        forall|seq: u64| #[trigger]
            has_seq(line.subrange(from, to), seq) ==> has_seq(line, seq),
{
    let part = line.subrange(from, to);
    if distinct(line) {
        assert forall|i: int, j: int| 0 <= i < j < part.len() implies (#[trigger] part[i]).seq != (
        #[trigger] part[j]).seq by {
            assert(line[from + i].seq != line[from + j].seq);
        }
    }
    assert forall|seq: u64| #[trigger] has_seq(part, seq) implies has_seq(line, seq) by {
        let i = choose|i: int| 0 <= i < part.len() && (#[trigger] part[i]).seq == seq;
        assert(line[from + i].seq == seq);
    }
}

proof fn lemma_below(pool: PoolView, seq: u64)
    requires
        pool.consistent(),
        has_seq(pool.idle, seq),
    ensures
        seq < pool.session_seq,
{
    let i = choose|i: int| 0 <= i < pool.idle.len() && (#[trigger] pool.idle[i]).seq == seq;
    assert(pool.idle[i].seq < pool.session_seq);
}

/// A pool without sessions is consistent.
pub proof fn law_empty_pool()
    ensures
        PoolView::empty().consistent(),
{
}

/// A number that is taken for a session that is never made keeps the pool
/// consistent, as long as there are numbers left.
pub proof fn law_lost_number_keeps_pool(pool: PoolView)
    requires
        pool.consistent(),
        pool.session_seq < u64::MAX,
    ensures
        pool.numbered().consistent(),
{
}

/// Choosing a session keeps the pool consistent.
pub proof fn law_choice_keeps_pool(pool: PoolView, candidate_dead: bool)
    requires
        pool.consistent(),
    ensures
        pool.choose_session(candidate_dead).1.consistent(),
{
    if pool.idle.len() > 0 {
        let line = IdleOrder::NewestFirst.sorted(pool.idle);
        law_sorted(IdleOrder::NewestFirst, pool.idle);
        let rest = line.drop_first();
        let after = pool.choose_session(candidate_dead).1;
        lemma_part(line, 1, line.len() as int);
        assert(rest =~= line.subrange(1, line.len() as int));
        assert(line[0].seq == line[0].seq);
        assert(has_seq(line, line[0].seq));
        lemma_below(pool, line[0].seq);
        assert forall|i: int| 0 <= i < after.active.len() implies !has_seq(
            after.idle,
            #[trigger] after.active[i],
        ) by {
            if i < pool.active.len() {
                assert(!has_seq(pool.idle, pool.active[i]));
                assert(!has_seq(line, pool.active[i]));
            } else {
                if has_seq(rest, line[0].seq) {
                    let k = choose|k: int|
                        0 <= k < rest.len() && (#[trigger] rest[k]).seq == line[0].seq;
                    assert(line[0].seq != line[k + 1].seq);
                }
            }
        }
        assert forall|i: int, j: int| 0 <= i < j < after.active.len() implies #[trigger] after.active[i]
            != #[trigger] after.active[j] by {
            assert(!has_seq(pool.idle, pool.active[i]));
        }
        assert forall|i: int| 0 <= i < after.idle.len() implies (#[trigger] after.idle[i]).seq
            < after.session_seq by {
            assert(line[i + 1].seq == after.idle[i].seq);
            assert(has_seq(line, after.idle[i].seq));
            lemma_below(pool, after.idle[i].seq);
        }
    }
}

/// A session that is made anew keeps the pool consistent, as long as there are
/// numbers left.
pub proof fn law_creation_keeps_pool(pool: PoolView)
    requires
        pool.consistent(),
        pool.session_seq < u64::MAX,
    ensures
        pool.numbered().with_active(pool.session_seq).consistent(),
{
    let after = pool.numbered().with_active(pool.session_seq);
    if has_seq(pool.idle, pool.session_seq) {
        lemma_below(pool, pool.session_seq);
    }
    assert forall|i: int| 0 <= i < after.active.len() implies !has_seq(
        after.idle,
        #[trigger] after.active[i],
    ) by {
        if i < pool.active.len() {
            assert(!has_seq(pool.idle, pool.active[i]));
        }
    }
}

proof fn lemma_without(numbers: Seq<u64>, seq: u64)
    ensures
        forall|i: int|
            0 <= i < without(numbers, seq).len() ==> #[trigger] without(numbers, seq)[i] != seq
                && numbers.contains(without(numbers, seq)[i]),
        numbers.no_duplicates() ==> without(numbers, seq).no_duplicates(),
    decreases numbers.len(),
{
    reveal(Seq::filter);
    if numbers.len() > 0 {
        let front = numbers.drop_last();
        lemma_without(front, seq);
        let kept = without(front, seq);
        let all = without(numbers, seq);
        assert forall|i: int| 0 <= i < all.len() implies #[trigger] all[i] != seq
            && numbers.contains(all[i]) by {
            if i < kept.len() {
                assert(all[i] == kept[i]);
                let k = choose|k: int| 0 <= k < front.len() && front[k] == kept[i];
                assert(numbers[k] == all[i]);
            } else {
                assert(numbers[numbers.len() - 1] == all[i]);
            }
        }
        if numbers.no_duplicates() {
            assert(front.no_duplicates());
            assert forall|i: int, j: int| 0 <= i < all.len() && 0 <= j < all.len() && i
                != j implies all[i] != all[j] by {
                if i < kept.len() {
                    assert(all[i] == kept[i]);
                    let k = choose|k: int| 0 <= k < front.len() && front[k] == kept[i];
                    assert(numbers[k] != numbers[numbers.len() - 1]);
                }
                if j < kept.len() {
                    assert(all[j] == kept[j]);
                    let k = choose|k: int| 0 <= k < front.len() && front[k] == kept[j];
                    assert(numbers[k] != numbers[numbers.len() - 1]);
                }
            }
        }
    }
}

/// A session in use that is no longer used keeps the pool consistent.
pub proof fn law_idling_keeps_pool(pool: PoolView, seq: u64, dead: bool, now: u128)
    requires
        pool.consistent(),
        pool.active.contains(seq),
    ensures
        pool.marked_idle(seq, dead, now).consistent(),
        !pool.marked_idle(seq, dead, now).active.contains(seq),
        has_seq(pool.marked_idle(seq, dead, now).idle, seq) == !dead,
{
    let after = pool.marked_idle(seq, dead, now);
    let at = choose|at: int| 0 <= at < pool.active.len() && pool.active[at] == seq;
    assert(pool.active[at] < pool.session_seq && !has_seq(pool.idle, seq));
    lemma_without(pool.active, seq);
    assert(pool.active.no_duplicates());
    assert forall|i: int| 0 <= i < after.active.len() implies #[trigger] after.active[i]
        < after.session_seq && !has_seq(after.idle, after.active[i]) by {
        let x = after.active[i];
        let k = choose|k: int| 0 <= k < pool.active.len() && pool.active[k] == x;
        assert(pool.active[k] < pool.session_seq && !has_seq(pool.idle, pool.active[k]));
        if has_seq(after.idle, x) {
            let m = choose|m: int| 0 <= m < after.idle.len() && (#[trigger] after.idle[m]).seq == x;
            if m < pool.idle.len() {
                assert(pool.idle[m].seq == x);
            }
        }
    }
    if !dead {
        assert(after.idle[pool.idle.len() as int].seq == seq);
        assert forall|i: int, j: int| 0 <= i < j < after.idle.len() implies (
        #[trigger] after.idle[i]).seq != (#[trigger] after.idle[j]).seq by {
            assert(after.idle[i] == pool.idle[i]);
            if j < pool.idle.len() {
                assert(pool.idle[i].seq != pool.idle[j].seq);
            } else {
                assert(pool.idle[i].seq != seq);
            }
        }
    }
}

/// A cleanup keeps the pool consistent.
pub proof fn law_cleanup_keeps_pool(pool: PoolView, now: u128, timeout: u128, min_idle: nat)
    requires
        pool.consistent(),
    ensures
        pool.cleaned(now, timeout, min_idle).1.consistent(),
{
    let line = IdleOrder::LongestIdleFirst.sorted(pool.idle);
    law_sorted(IdleOrder::LongestIdleFirst, pool.idle);
    lemma_expired_front(line, now, timeout);
    let count = closed_count(line, now, timeout, min_idle) as int;
    let after = pool.cleaned(now, timeout, min_idle).1;
    lemma_part(line, count, line.len() as int);
    assert(after.idle =~= line.subrange(count, line.len() as int));
    assert forall|i: int| 0 <= i < after.active.len() implies !has_seq(
        after.idle,
        #[trigger] after.active[i],
    ) by {
        assert(!has_seq(pool.idle, pool.active[i]));
        assert(!has_seq(line, pool.active[i]));
    }
    assert forall|i: int| 0 <= i < after.idle.len() implies (#[trigger] after.idle[i]).seq
        < after.session_seq by {
        assert(line[i + count].seq == after.idle[i].seq);
        assert(has_seq(line, after.idle[i].seq));
        lemma_below(pool, after.idle[i].seq);
    }
}

/// No idle session has a higher number than the one that is used again.
pub proof fn law_newest_is_reused(pool: PoolView, candidate_dead: bool, i: int)
    requires
        0 <= i < pool.idle.len(),
    ensures
        pool.candidate() matches Some(seq) && pool.idle[i].seq <= seq,
        pool.choose_session(candidate_dead).0 == (if candidate_dead {
            SessionChoice::Create
        } else {
            SessionChoice::Reuse(pool.candidate().unwrap())
        }),
{
    let line = IdleOrder::NewestFirst.sorted(pool.idle);
    law_sorted(IdleOrder::NewestFirst, pool.idle);
    assert(has_seq(pool.idle, pool.idle[i].seq));
    assert(has_seq(line, pool.idle[i].seq));
    let k = choose|k: int| 0 <= k < line.len() && (#[trigger] line[k]).seq == pool.idle[i].seq;
    if k > 0 {
        assert(IdleOrder::NewestFirst.key(line[0]) <= IdleOrder::NewestFirst.key(line[k]));
    }
}

proof fn lemma_expired_front(line: Seq<IdleSession>, now: u128, timeout: u128)
    ensures
        expired_front(line, now, timeout) <= line.len(),
        forall|i: int|
            0 <= i < expired_front(line, now, timeout) ==> expired(
                #[trigger] line[i],
                now,
                timeout,
            ),
        expired_front(line, now, timeout) < line.len() ==> !expired(
            line[expired_front(line, now, timeout) as int],
            now,
            timeout,
        ),
    decreases line.len(),
{
    if line.len() > 0 && expired(line[0], now, timeout) {
        let rest = line.drop_first();
        lemma_expired_front(rest, now, timeout);
        assert forall|i: int| 0 <= i < expired_front(line, now, timeout) implies expired(
            #[trigger] line[i],
            now,
            timeout,
        ) by {
            if i > 0 {
                assert(rest[i - 1] == line[i]);
            }
        }
    }
}

/// A cleanup closes only sessions that have waited for too long, the longest
/// waiting first; it leaves `min_idle` of them, or all where there are fewer;
/// and it closes every one that it may.
pub proof fn law_cleanup(pool: PoolView, now: u128, timeout: u128, min_idle: nat)
    ensures
        ({
            let line = IdleOrder::LongestIdleFirst.sorted(pool.idle);
            let (closed, after) = pool.cleaned(now, timeout, min_idle);
            &&& closed.len() + after.idle.len() == pool.idle.len()
            &&& after.idle.len() >= min_idle || closed.len() == 0
            &&& forall|i: int|
                0 <= i < closed.len() ==> closed[i] == (#[trigger] line[i]).seq && expired(
                    line[i],
                    now,
                    timeout,
                )
            &&& forall|i: int, j: int|
                0 <= i < closed.len() && 0 <= j < after.idle.len() ==> (
                #[trigger] line[i]).idle_since <= (#[trigger] after.idle[j]).idle_since
            &&& after.idle.len() > min_idle ==> forall|j: int|
                0 <= j < after.idle.len() ==> !expired(#[trigger] after.idle[j], now, timeout)
        }),
{
    let order = IdleOrder::LongestIdleFirst;
    let line = order.sorted(pool.idle);
    let (closed, after) = pool.cleaned(now, timeout, min_idle);
    law_sorted(order, pool.idle);
    lemma_expired_front(line, now, timeout);
    let late = expired_front(line, now, timeout);
    let count = closed_count(line, now, timeout, min_idle) as int;
    assert forall|i: int, j: int| 0 <= i < closed.len() && 0 <= j < after.idle.len() implies (
    #[trigger] line[i]).idle_since <= (#[trigger] after.idle[j]).idle_since by {
        assert(after.idle[j] == line[count + j]);
        assert(order.key(line[i]) <= order.key(line[count + j]));
    }
    if after.idle.len() > min_idle {
        assert(count == late);
        assert forall|j: int| 0 <= j < after.idle.len() implies !expired(
            #[trigger] after.idle[j],
            now,
            timeout,
        ) by {
            assert(after.idle[j] == line[count + j]);
            if j > 0 {
                assert(order.key(line[count]) <= order.key(line[count + j]));
            }
        }
    }
}

/// Newest first: the numbers go down, and of each number the sessions stand as
/// they stood.
pub proof fn law_newest_first(sessions: Seq<IdleSession>, seq: u64)
    ensures
        ({
            let line = IdleOrder::NewestFirst.sorted(sessions);
            &&& line.len() == sessions.len()
            &&& forall|i: int, j: int|
                0 <= i < j < line.len() ==> (#[trigger] line[i]).seq >= (#[trigger] line[j]).seq
            &&& line.filter(|s: IdleSession| s.seq == seq) == sessions.filter(
                |s: IdleSession| s.seq == seq,
            )
        }),
{
    let order = IdleOrder::NewestFirst;
    let line = order.sorted(sessions);
    law_sorted(order, sessions);
    assert forall|i: int, j: int| 0 <= i < j < line.len() implies (#[trigger] line[i]).seq >= (
    #[trigger] line[j]).seq by {
        assert(order.key(line[i]) <= order.key(line[j]));
    }
    let rank = -(seq as int);
    assert(of_rank(order, line, rank) == of_rank(order, sessions, rank));
    assert((|s: IdleSession| order.key(s) == rank) =~= (|s: IdleSession| s.seq == seq));
}

/// Longest idle first: the times go up, and of each time the sessions stand as
/// they stood.
pub proof fn law_longest_idle_first(sessions: Seq<IdleSession>, since: u128)
    ensures
        ({
            let line = IdleOrder::LongestIdleFirst.sorted(sessions);
            &&& line.len() == sessions.len()
            &&& forall|i: int, j: int|
                0 <= i < j < line.len() ==> (#[trigger] line[i]).idle_since <= (
                #[trigger] line[j]).idle_since
            &&& line.filter(|s: IdleSession| s.idle_since == since) == sessions.filter(
                |s: IdleSession| s.idle_since == since,
            )
        }),
{
    let order = IdleOrder::LongestIdleFirst;
    let line = order.sorted(sessions);
    law_sorted(order, sessions);
    assert forall|i: int, j: int| 0 <= i < j < line.len() implies (#[trigger] line[i]).idle_since
        <= (#[trigger] line[j]).idle_since by {
        assert(order.key(line[i]) <= order.key(line[j]));
    }
    let rank = since as int;
    assert(of_rank(order, line, rank) == of_rank(order, sessions, rank));
    assert((|s: IdleSession| order.key(s) == rank) =~= (|s: IdleSession| s.idle_since == since));
}

/// Where the next session comes from. A pool without idle sessions makes one and
/// stays as it is; otherwise the newest idle session leaves the idle ones, and is
/// in use unless it was dead.
pub proof fn law_choice(pool: PoolView, candidate_dead: bool)
    ensures
        ({
            let (choice, after) = pool.choose_session(candidate_dead);
            let line = IdleOrder::NewestFirst.sorted(pool.idle);
            &&& after.session_seq == pool.session_seq
            &&& pool.idle.len() == 0 ==> {
                &&& pool.candidate() is None
                &&& choice is Create
                &&& after == pool
            }
            &&& pool.idle.len() > 0 ==> {
                &&& pool.candidate() == Some(line[0].seq)
                &&& forall|i: int| 0 <= i < pool.idle.len() ==> (#[trigger] pool.idle[i]).seq
                    <= line[0].seq
                &&& seq![line[0]] + after.idle == line
                &&& candidate_dead ==> choice is Create && after.active == pool.active
                &&& !candidate_dead ==> choice == SessionChoice::Reuse(line[0].seq) && after.active
                    == pool.active.push(line[0].seq)
            }
        }),
{
    if pool.idle.len() > 0 {
        let line = IdleOrder::NewestFirst.sorted(pool.idle);
        law_newest_first(pool.idle, 0);
        assert forall|i: int| 0 <= i < pool.idle.len() implies (#[trigger] pool.idle[i]).seq
            <= line[0].seq by {
            law_newest_is_reused(pool, candidate_dead, i);
        }
        assert(seq![line[0]] + line.drop_first() =~= line);
    }
}

/// A cleanup by the clock alone, for every time and timeout. The sessions stand
/// by how long they have waited, longest first; those at the front are closed:
/// each has waited for longer than `timeout`, and closing any leaves at least
/// `min_idle`. Where more than `min_idle` are left, none of them has waited for
/// longer than `timeout`. The sessions in use stay as they are.
pub proof fn law_cleanup_by_the_clock(pool: PoolView, now: u128, timeout: u128, min_idle: nat)
    ensures
        ({
            let line = IdleOrder::LongestIdleFirst.sorted(pool.idle);
            let (closed, after) = pool.cleaned(now, timeout, min_idle);
            &&& closed.len() + after.idle.len() == pool.idle.len()
            &&& forall|i: int|
                0 <= i < closed.len() ==> closed[i] == (#[trigger] line[i]).seq && now
                    - line[i].idle_since > timeout
            &&& after.idle == line.skip(closed.len() as int)
            &&& closed.len() > 0 ==> after.idle.len() >= min_idle
            &&& after.idle.len() > min_idle ==> forall|j: int|
                0 <= j < after.idle.len() ==> now - (#[trigger] after.idle[j]).idle_since
                    <= timeout
            &&& after.active == pool.active
            &&& after.session_seq == pool.session_seq
        }),
{
    law_cleanup(pool, now, timeout, min_idle);
    let line = IdleOrder::LongestIdleFirst.sorted(pool.idle);
    let (closed, after) = pool.cleaned(now, timeout, min_idle);
    assert forall|i: int| 0 <= i < closed.len() implies closed[i] == (#[trigger] line[i]).seq
        && now - line[i].idle_since > timeout by {
        assert(expired(line[i], now, timeout));
    }
    if after.idle.len() > min_idle {
        assert forall|j: int| 0 <= j < after.idle.len() implies now - (
        #[trigger] after.idle[j]).idle_since <= timeout by {
            assert(!expired(after.idle[j], now, timeout));
        }
    }
}

/// Taking a number hands the next one out, starting over behind the largest, and
/// changes nothing else; a session that was made is in use behind the others.
pub proof fn law_numbering(pool: PoolView, seq: u64)
    ensures
        pool.numbered().session_seq == (pool.session_seq + 1) % 0x1_0000_0000_0000_0000,
        pool.numbered().active == pool.active,
        pool.numbered().idle == pool.idle,
        pool.with_active(seq).active == pool.active.push(seq),
        pool.with_active(seq).idle == pool.idle,
        pool.with_active(seq).session_seq == pool.session_seq,
        PoolView::empty().active.len() == 0,
        PoolView::empty().idle.len() == 0,
        PoolView::empty().session_seq == 0,
{
}

/// A session that is no longer used waits from now on, behind the others, unless
/// it is dead; every entry of its number leaves those in use, and the others stay
/// in their order.
pub proof fn law_idling(pool: PoolView, seq: u64, dead: bool, now: u128, other: u64)
    ensures
        ({
            let after = pool.marked_idle(seq, dead, now);
            &&& after.idle == (if dead {
                pool.idle
            } else {
                pool.idle.push(IdleSession { seq, idle_since: now })
            })
            &&& after.active == without(pool.active, seq)
            &&& after.session_seq == pool.session_seq
        }),
        without(Seq::empty(), seq).len() == 0,
        without(pool.active.push(other), seq) == (if other == seq {
            without(pool.active, seq)
        } else {
            without(pool.active, seq).push(other)
        }),
{
    reveal(Seq::filter);
    assert(pool.active.push(other).drop_last() =~= pool.active);
}

} // verus!
