use crate::account::{Account, AccountView};
use crate::error::OreoError;
use crate::keys::SecpKey;
use crate::ledger::Ledger;
use crate::rank::account_views;
use crate::reconcile::{answer, applied, apply_report, Outcome, Report, ReportView};
use crate::scheduler::{job_for, job_of, job_view, Job, JobView};
use crate::text::same;
use vstd::prelude::*;

verus! {

/// Where a worker session stands.
#[derive(Clone, Copy, Debug, PartialEq, Eq, Structural)]
pub enum SessionState {
    /// The worker has connected and was given no job yet.
    Connected,
    /// A job was picked for the worker and is on its way to it.
    Assigned,
    /// The worker has its job, and its reports are awaited.
    AwaitingReport,
    /// The worker has finished a job and waits for the next.
    Idle,
    /// The worker is gone.
    Closed,
}

/// A worker session as mathematical values: its id, its state, and the job
/// it holds.
pub struct SessionView {
    pub id: u64,
    pub state: SessionState,
    pub job: Option<JobView>,
}

/// A worker session as the coordinator files it.
struct Session {
    id: u64,
    state: SessionState,
    job: Option<Job>,
}

/// What a filed session says.
spec fn session_view(s: Session) -> SessionView {
    SessionView { id: s.id, state: s.state, job: job_view(s.job) }
}

/// Whether a session in this state can be given a job.
pub open spec fn is_free(state: SessionState) -> bool {
    state == SessionState::Connected || state == SessionState::Idle
}

/// Whether a session in this state holds a job.
pub open spec fn is_busy(state: SessionState) -> bool {
    state == SessionState::Assigned || state == SessionState::AwaitingReport
}

/// Whether the session at index `i` has the id `id`.
pub open spec fn session_at(s: Seq<SessionView>, i: int, id: u64) -> bool {
    0 <= i < s.len() && s[i].id == id
}

/// Whether a session with the id `id` is on file.
pub open spec fn knows(s: Seq<SessionView>, id: u64) -> bool {
    exists|i: int| session_at(s, i, id)
}

/// The index of the session with the id `id`.
pub open spec fn position(s: Seq<SessionView>, id: u64) -> int {
    choose|i: int| session_at(s, i, id)
}

/// Whether the session at index `i` holds a job for `address`.
pub open spec fn holds(s: Seq<SessionView>, i: int, address: Seq<char>) -> bool {
    0 <= i < s.len() && s[i].job is Some && s[i].job->Some_0.address == address
}

/// Whether some session holds a job for `address`: the account is locked.
pub open spec fn locked(s: Seq<SessionView>, address: Seq<char>) -> bool {
    exists|i: int| holds(s, i, address)
}

/// What the coordinator keeps true of its sessions: no id is on file twice,
/// a session holds a job exactly while it is assigned or awaited, a job
/// covers at least one block, and no two sessions hold a job for the same
/// address.
pub open spec fn sessions_wf(s: Seq<SessionView>) -> bool {
    &&& forall|i: int, j: int| 0 <= i < j < s.len() ==> s[i].id != s[j].id
    &&& forall|i: int| 0 <= i < s.len() ==> ((#[trigger] s[i]).job is Some <==> is_busy(s[i].state))
    &&& forall|i: int|
        0 <= i < s.len() && (#[trigger] s[i]).job is Some ==> s[i].job->Some_0.from_sequence
            <= s[i].job->Some_0.to_sequence
    &&& forall|i: int, j: int, a: Seq<char>|
        #[trigger] holds(s, i, a) && #[trigger] holds(s, j, a) ==> i == j
}

/// Of two different sessions that both hold a job, the
/// jobs are for different addresses, in every state that the coordinator can
/// be in.
pub proof fn lemma_mutual_exclusion(s: Seq<SessionView>, i: int, j: int)
    requires
        sessions_wf(s),
        0 <= i < s.len(),
        0 <= j < s.len(),
        i != j,
        s[i].job is Some,
        s[j].job is Some,
    ensures
        s[i].job->Some_0.address != s[j].job->Some_0.address,
{
    let a = s[i].job->Some_0.address;
    if s[j].job->Some_0.address == a {
        assert(holds(s, i, a));
        assert(holds(s, j, a));
    }
}

/// With no id on file twice, the session found for an id is the only one.
pub proof fn lemma_session_found(s: Seq<SessionView>, i: int)
    requires
        sessions_wf(s),
        0 <= i < s.len(),
    ensures
        knows(s, s[i].id),
        position(s, s[i].id) == i,
{
    assert(session_at(s, i, s[i].id));
    let j = position(s, s[i].id);
    assert(session_at(s, j, s[i].id));
}

/// What `assign` answers: the session has to be on file and free, the job
/// has to cover at least one block, and its address must not be locked.
pub open spec fn assign_answer(s: Seq<SessionView>, id: u64, job: JobView) -> Result<
    (),
    OreoError,
> {
    if !knows(s, id) {
        Err(OreoError::NotFound)
    } else if !is_free(s[position(s, id)].state) || job.from_sequence > job.to_sequence {
        Err(OreoError::Invalid)
    } else if locked(s, job.address) {
        Err(OreoError::Conflict)
    } else {
        Ok(())
    }
}

/// The sessions after the one with the id `id` was put in `state` with
/// `job`.
pub open spec fn with_session(
    s: Seq<SessionView>,
    id: u64,
    state: SessionState,
    job: Option<JobView>,
) -> Seq<SessionView> {
    s.update(position(s, id), SessionView { id: id, state: state, job: job })
}

/// Whether the session with the id `id` may hand in `report`: it is awaited,
/// and its job is for the report's address and covers the report's sequence.
pub open spec fn admits_report(s: Seq<SessionView>, id: u64, report: ReportView) -> Result<
    (),
    OreoError,
> {
    if !knows(s, id) {
        Err(OreoError::NotFound)
    } else {
        let x = s[position(s, id)];
        if x.state == SessionState::AwaitingReport && x.job is Some && x.job->Some_0.address
            == report.address && x.job->Some_0.from_sequence <= report.sequence
            <= x.job->Some_0.to_sequence {
            Ok(())
        } else {
            Err(OreoError::Invalid)
        }
    }
}

/// Whether `account` can be given out as a job: it has not reached
/// `node_latest`, and no session holds a job for it.
pub open spec fn eligible(s: Seq<SessionView>, account: AccountView, node_latest: i64) -> bool {
    job_of(account, node_latest) is Some && !locked(s, account.address)
}

/// Whether `i` is the first index in `candidates` whose account can be given
/// out as a job.
pub open spec fn first_eligible(
    s: Seq<SessionView>,
    candidates: Seq<AccountView>,
    node_latest: i64,
    i: int,
) -> bool {
    &&& 0 <= i < candidates.len()
    &&& eligible(s, candidates[i], node_latest)
    &&& forall|j: int| 0 <= j < i ==> !eligible(s, #[trigger] candidates[j], node_latest)
}

/// Whether `i` is the first index in `s` whose session can be given a job.
pub open spec fn first_free(s: Seq<SessionView>, i: int) -> bool {
    &&& 0 <= i < s.len()
    &&& is_free(s[i].state)
    &&& forall|j: int| 0 <= j < i ==> !is_free((#[trigger] s[j]).state)
}

/// The view of a job that was given to a session.
pub open spec fn given_view(g: Option<(u64, Job)>) -> Option<(u64, JobView)> {
    match g {
        Some((id, job)) => Some((id, job@)),
        None => None,
    }
}

/// Whether `after` and `given` are what one greedy step makes of the
/// sessions `before`: the first free session is given a job for the first
/// candidate that can be given out, and where there is no free session or
/// no such candidate nothing is given and nothing changes.
pub open spec fn is_dispatch(
    before: Seq<SessionView>,
    candidates: Seq<AccountView>,
    node_latest: i64,
    given: Option<(u64, JobView)>,
    after: Seq<SessionView>,
) -> bool {
    match given {
        Some((id, job)) => {
            &&& knows(before, id)
            &&& first_free(before, position(before, id))
            &&& exists|i: int| #[trigger]
                first_eligible(before, candidates, node_latest, i) && Some(job) == job_of(
                    candidates[i],
                    node_latest,
                )
            &&& after == with_session(before, id, SessionState::Assigned, Some(job))
        },
        None => {
            &&& after == before
            &&& (forall|i: int| 0 <= i < before.len() ==> !is_free((#[trigger] before[i]).state))
                || (forall|i: int|
                0 <= i < candidates.len() ==> !eligible(
                    before,
                    #[trigger] candidates[i],
                    node_latest,
                ))
        },
    }
}

/// The coordinator of the worker sessions: who is connected, which job each
/// session holds, and through the jobs which accounts are locked.
pub struct Coordinator {
    secp: SecpKey,
    sessions: Vec<Session>,
}

impl View for Coordinator {
    type V = Seq<SessionView>;

    closed spec fn view(&self) -> Seq<SessionView> {
        Seq::new(self.sessions@.len(), |i: int| session_view(self.sessions@[i]))
    }
}

impl Coordinator {
    /// Whether the coordinator is in order.
    pub open spec fn inv(&self) -> bool {
        sessions_wf(self@)
    }

    /// The capability that sessions are checked against.
    pub closed spec fn key(&self) -> SecpKey {
        self.secp
    }

    /// A coordinator without sessions, which checks sessions against `secp`.
    pub fn new(secp: SecpKey) -> (r: Coordinator)
        ensures
            r.inv(),
            r@ == Seq::<SessionView>::empty(),
            r.key() == secp,
    {
        let r = Coordinator { secp: secp, sessions: Vec::new() };
        proof {
            assert(r@ =~= Seq::<SessionView>::empty());
        }
        r
    }

    /// The index of the session with the id `id`.
    fn find(&self, id: u64) -> (r: Option<usize>)
        requires
            self.inv(),
        ensures
            match r {
                Some(i) => session_at(self@, i as int, id) && knows(self@, id) && position(
                    self@,
                    id,
                ) == i && i < self.sessions@.len(),
                None => !knows(self@, id),
            },
    {
        let mut i: usize = 0;
        while i < self.sessions.len()
            invariant
                self.inv(),
                i <= self.sessions@.len(),
                forall|j: int| 0 <= j < i ==> !session_at(self@, j, id),
            decreases self.sessions@.len() - i,
        {
            if self.sessions[i].id == id {
                proof {
                    lemma_session_found(self@, i as int);
                }
                return Some(i);
            }
            i += 1;
        }
        None
    }

    /// The id of the session that holds a job for `address`.
    pub fn holder(&self, address: &str) -> (r: Option<u64>)
        requires
            self.inv(),
        ensures
            match r {
                Some(id) => knows(self@, id) && holds(self@, position(self@, id), address@),
                None => !locked(self@, address@),
            },
    {
        let mut i: usize = 0;
        while i < self.sessions.len()
            invariant
                self.inv(),
                i <= self.sessions@.len(),
                forall|j: int| 0 <= j < i ==> !holds(self@, j, address@),
            decreases self.sessions@.len() - i,
        {
            let held = match &self.sessions[i].job {
                Some(job) => same(job.address.as_str(), address),
                None => false,
            };
            if held {
                proof {
                    lemma_session_found(self@, i as int);
                }
                return Some(self.sessions[i].id);
            }
            i += 1;
        }
        None
    }

    /// The state of the session with the id `id`.
    pub fn state(&self, id: u64) -> (r: Option<SessionState>)
        requires
            self.inv(),
        ensures
            match r {
                Some(state) => knows(self@, id) && state == self@[position(self@, id)].state,
                None => !knows(self@, id),
            },
    {
        match self.find(id) {
            Some(i) => Some(self.sessions[i].state),
            None => None,
        }
    }

    /// The job that the session with the id `id` holds.
    pub fn job(&self, id: u64) -> (r: Option<Job>)
        requires
            self.inv(),
        ensures
            job_view(r) == (if knows(self@, id) {
                self@[position(self@, id)].job
            } else {
                None
            }),
    {
        match self.find(id) {
            Some(i) => match &self.sessions[i].job {
                Some(job) => Some(job.clone()),
                None => None,
            },
            None => None,
        }
    }

    /// The id of the first session, in the order of connection, that can be
    /// given a job.
    pub fn free_session(&self) -> (r: Option<u64>)
        requires
            self.inv(),
        ensures
            match r {
                Some(id) => knows(self@, id) && first_free(self@, position(self@, id)),
                None => forall|i: int| 0 <= i < self@.len() ==> !is_free((#[trigger] self@[i]).state),
            },
    {
        let mut i: usize = 0;
        while i < self.sessions.len()
            invariant
                self.inv(),
                i <= self.sessions@.len(),
                forall|j: int| 0 <= j < i ==> !is_free((#[trigger] self@[j]).state),
            decreases self.sessions@.len() - i,
        {
            match self.sessions[i].state {
                SessionState::Connected | SessionState::Idle => {
                    proof {
                        lemma_session_found(self@, i as int);
                    }
                    return Some(self.sessions[i].id);
                },
                _ => {},
            }
            i += 1;
        }
        None
    }

    /// Puts the session at index `i` in `state` with `job`.
    fn put(&mut self, i: usize, state: SessionState, job: Option<Job>)
        requires
            i < old(self).sessions@.len(),
        ensures
            final(self)@ == old(self)@.update(
                i as int,
                SessionView { id: old(self)@[i as int].id, state: state, job: job_view(job) },
            ),
            final(self).key() == old(self).key(),
    {
        self.sessions[i].state = state;
        self.sessions[i].job = job;
        proof {
            assert(self@ =~= old(self)@.update(
                i as int,
                SessionView { id: old(self)@[i as int].id, state: state, job: job_view(job) },
            ));
        }
    }

    /// Takes in a worker that has connected under the id `id` and presents
    /// the public key `presented`. A worker whose key is not the
    /// capability's is rejected as invalid; an id that is on file already is
    /// a conflict.
    pub fn connect(&mut self, id: u64, presented: &[u8; 33]) -> (r: Result<(), OreoError>)
        requires
            old(self).inv(),
        ensures
            final(self).inv(),
            final(self).key() == old(self).key(),
            match r {
                Ok(()) => presented@ == old(self).key().pk@ && !knows(old(self)@, id) && final(self)@ == old(self)@.push(
                    SessionView { id: id, state: SessionState::Connected, job: None },
                ),
                Err(e) => final(self)@ == old(self)@ && if presented@ != old(self).key().pk@ {
                    e == OreoError::Invalid
                } else {
                    e == OreoError::Conflict && knows(old(self)@, id)
                },
            },
    {
        if !self.secp.matches(presented) {
            return Err(OreoError::Invalid);
        }
        if self.find(id).is_some() {
            return Err(OreoError::Conflict);
        }
        self.sessions.push(Session { id: id, state: SessionState::Connected, job: None });
        proof {
            let s = self@;
            let before = old(self)@;
            assert(s =~= before.push(
                SessionView { id: id, state: SessionState::Connected, job: None },
            ));
            assert forall|i: int, j: int| 0 <= i < j < s.len() implies s[i].id != s[j].id by {
                if j == before.len() {
                    assert(!session_at(before, i, id));
                }
            }
            assert forall|i: int, j: int, a: Seq<char>| #[trigger]
                holds(s, i, a) && #[trigger] holds(s, j, a) implies i == j by {
                assert(holds(before, i, a));
                assert(holds(before, j, a));
            }
        }
        Ok(())
    }

    /// Gives `job` to the session with the id `id`, which has to be free.
    /// The address of the job is locked from then on: a job for an address
    /// that another session holds a job for is a conflict.
    pub fn assign(&mut self, id: u64, job: Job) -> (r: Result<(), OreoError>)
        requires
            old(self).inv(),
        ensures
            final(self).inv(),
            final(self).key() == old(self).key(),
            r == assign_answer(old(self)@, id, job@),
            final(self)@ == (if r is Ok {
                with_session(old(self)@, id, SessionState::Assigned, Some(job@))
            } else {
                old(self)@
            }),
    {
        let i = match self.find(id) {
            Some(i) => i,
            None => {
                return Err(OreoError::NotFound);
            },
        };
        let free = match self.sessions[i].state {
            SessionState::Connected | SessionState::Idle => true,
            _ => false,
        };
        if !free || job.from_sequence > job.to_sequence {
            return Err(OreoError::Invalid);
        }
        if self.holder(job.address.as_str()).is_some() {
            return Err(OreoError::Conflict);
        }
        let ghost taken = job@;
        self.put(i, SessionState::Assigned, Some(job));
        proof {
            let s = self@;
            let before = old(self)@;
            assert forall|x: int, y: int, a: Seq<char>| #[trigger]
                holds(s, x, a) && #[trigger] holds(s, y, a) implies x == y by {
                if x != i {
                    assert(holds(before, x, a));
                }
                if y != i {
                    assert(holds(before, y, a));
                }
            }
        }
        Ok(())
    }

    /// Moves the session with the id `id` from `from` to `to` and takes its
    /// job from it where `to` holds none.
    fn step(&mut self, id: u64, from_assigned: bool, from_awaited: bool, to: SessionState) -> (r:
        Result<Option<Job>, OreoError>)
        requires
            old(self).inv(),
            to == SessionState::AwaitingReport || to == SessionState::Idle,
        ensures
            final(self).inv(),
            final(self).key() == old(self).key(),
            match r {
                Ok(job) => knows(old(self)@, id) && leaves(
                    old(self)@[position(old(self)@, id)].state,
                    from_assigned,
                    from_awaited,
                ) && job_view(job) == old(self)@[position(old(self)@, id)].job && final(self)@
                    == with_session(
                    old(self)@,
                    id,
                    to,
                    if to == SessionState::Idle {
                        None
                    } else {
                        job_view(job)
                    },
                ),
                Err(e) => final(self)@ == old(self)@ && if knows(old(self)@, id) {
                    e == OreoError::Invalid && !leaves(
                        old(self)@[position(old(self)@, id)].state,
                        from_assigned,
                        from_awaited,
                    )
                } else {
                    e == OreoError::NotFound
                },
            },
    {
        let i = match self.find(id) {
            Some(i) => i,
            None => {
                return Err(OreoError::NotFound);
            },
        };
        let allowed = match self.sessions[i].state {
            SessionState::Assigned => from_assigned,
            SessionState::AwaitingReport => from_awaited,
            _ => false,
        };
        if !allowed {
            return Err(OreoError::Invalid);
        }
        let job = match &self.sessions[i].job {
            Some(job) => Some(job.clone()),
            None => None,
        };
        match to {
            SessionState::Idle => {
                self.put(i, to, None);
            },
            _ => {
                let kept = match &job {
                    Some(job) => Some(job.clone()),
                    None => None,
                };
                self.put(i, to, kept);
            },
        }
        proof {
            let s = self@;
            let before = old(self)@;
            assert forall|x: int, y: int, a: Seq<char>| #[trigger]
                holds(s, x, a) && #[trigger] holds(s, y, a) implies x == y by {
                assert(holds(before, x, a));
                assert(holds(before, y, a));
            }
        }
        Ok(job)
    }

    /// Records that the job of the session with the id `id` has been sent to
    /// the worker: its reports are awaited from now on.
    pub fn mark_sent(&mut self, id: u64) -> (r: Result<(), OreoError>)
        requires
            old(self).inv(),
        ensures
            final(self).inv(),
            final(self).key() == old(self).key(),
            match r {
                Ok(()) => knows(old(self)@, id) && old(self)@[position(old(self)@, id)].state
                    == SessionState::Assigned && final(self)@ == with_session(
                    old(self)@,
                    id,
                    SessionState::AwaitingReport,
                    old(self)@[position(old(self)@, id)].job,
                ),
                Err(e) => final(self)@ == old(self)@ && if knows(old(self)@, id) {
                    e == OreoError::Invalid && old(self)@[position(old(self)@, id)].state
                        != SessionState::Assigned
                } else {
                    e == OreoError::NotFound
                },
            },
    {
        match self.step(id, true, false, SessionState::AwaitingReport) {
            Ok(_) => Ok(()),
            Err(e) => Err(e),
        }
    }

    /// Ends the job of the session with the id `id` on the worker's signal
    /// that it is done or has failed: the session is idle, the address is
    /// unlocked, and the job is returned.
    pub fn complete(&mut self, id: u64) -> (r: Result<Job, OreoError>)
        requires
            old(self).inv(),
        ensures
            final(self).inv(),
            final(self).key() == old(self).key(),
            match r {
                Ok(job) => knows(old(self)@, id) && old(self)@[position(old(self)@, id)].state
                    == SessionState::AwaitingReport && Some(job@) == old(self)@[position(
                    old(self)@,
                    id,
                )].job && final(self)@ == with_session(old(self)@, id, SessionState::Idle, None),
                Err(e) => final(self)@ == old(self)@ && if knows(old(self)@, id) {
                    e == OreoError::Invalid && old(self)@[position(old(self)@, id)].state
                        != SessionState::AwaitingReport
                } else {
                    e == OreoError::NotFound
                },
            },
    {
        match self.step(id, false, true, SessionState::Idle) {
            Ok(Some(job)) => Ok(job),
            Ok(None) => Err(OreoError::Invalid),
            Err(e) => Err(e),
        }
    }

    /// Takes the job back from the session with the id `id` before it is
    /// done, as after a wait that ran out: the session is idle, the address
    /// is unlocked, and the job is returned for the pool.
    pub fn release(&mut self, id: u64) -> (r: Result<Job, OreoError>)
        requires
            old(self).inv(),
        ensures
            final(self).inv(),
            final(self).key() == old(self).key(),
            match r {
                Ok(job) => knows(old(self)@, id) && is_busy(
                    old(self)@[position(old(self)@, id)].state,
                ) && Some(job@) == old(self)@[position(old(self)@, id)].job && final(self)@
                    == with_session(old(self)@, id, SessionState::Idle, None),
                Err(e) => final(self)@ == old(self)@ && if knows(old(self)@, id) {
                    e == OreoError::Invalid && !is_busy(old(self)@[position(old(self)@, id)].state)
                } else {
                    e == OreoError::NotFound
                },
            },
    {
        match self.step(id, true, true, SessionState::Idle) {
            Ok(Some(job)) => Ok(job),
            Ok(None) => Err(OreoError::Invalid),
            Err(e) => Err(e),
        }
    }

    /// Closes the session with the id `id`, whatever state it is in. The job
    /// it held, if any, is returned for the pool, and its address is
    /// unlocked.
    pub fn close(&mut self, id: u64) -> (r: Result<Option<Job>, OreoError>)
        requires
            old(self).inv(),
        ensures
            final(self).inv(),
            final(self).key() == old(self).key(),
            match r {
                Ok(job) => knows(old(self)@, id) && job_view(job) == old(self)@[position(
                    old(self)@,
                    id,
                )].job && final(self)@ == with_session(old(self)@, id, SessionState::Closed, None),
                Err(e) => e == OreoError::NotFound && !knows(old(self)@, id) && final(self)@
                    == old(self)@,
            },
    {
        let i = match self.find(id) {
            Some(i) => i,
            None => {
                return Err(OreoError::NotFound);
            },
        };
        let job = match &self.sessions[i].job {
            Some(job) => Some(job.clone()),
            None => None,
        };
        self.put(i, SessionState::Closed, None);
        proof {
            let s = self@;
            let before = old(self)@;
            assert forall|x: int, y: int, a: Seq<char>| #[trigger]
                holds(s, x, a) && #[trigger] holds(s, y, a) implies x == y by {
                assert(holds(before, x, a));
                assert(holds(before, y, a));
            }
        }
        Ok(job)
    }

    /// Takes a report from the session with the id `id` and applies it to
    /// the ledger. The session has to be awaited, and its job has to be for
    /// the report's address and cover its sequence: any other report is
    /// dropped as invalid, and the ledger stays as it is.
    pub fn receive(&self, id: u64, ledger: &mut Ledger, report: &Report) -> (r: Result<
        Outcome,
        OreoError,
    >)
        requires
            self.inv(),
            old(ledger).inv(),
        ensures
            final(ledger).inv(),
            match admits_report(self@, id, report@) {
                Ok(()) => final(ledger)@ == applied(old(ledger)@, report@) && r == answer(
                    old(ledger)@,
                    report@,
                ),
                Err(e) => final(ledger)@ == old(ledger)@ && r == Err::<Outcome, OreoError>(e),
            },
    {
        let i = match self.find(id) {
            Some(i) => i,
            None => {
                return Err(OreoError::NotFound);
            },
        };
        let awaited = match self.sessions[i].state {
            SessionState::AwaitingReport => true,
            _ => false,
        };
        let covered = match &self.sessions[i].job {
            Some(job) => same(job.address.as_str(), report.address.as_str()) && job.from_sequence
                <= report.sequence && report.sequence <= job.to_sequence,
            None => false,
        };
        if !(awaited && covered) {
            return Err(OreoError::Invalid);
        }
        apply_report(ledger, report)
    }

    /// Gives the session with the id `id`, which has to be free, a job for
    /// the first of `candidates` that has not reached `node_latest` and that
    /// no session holds a job for. Returns the job, or none where no
    /// candidate can be given out.
    pub fn assign_next(&mut self, id: u64, candidates: &Vec<Account>, node_latest: i64) -> (r:
        Result<Option<Job>, OreoError>)
        requires
            old(self).inv(),
        ensures
            final(self).inv(),
            final(self).key() == old(self).key(),
            match r {
                Ok(Some(job)) => knows(old(self)@, id) && is_free(
                    old(self)@[position(old(self)@, id)].state,
                ) && (exists|i: int| #[trigger]
                    first_eligible(old(self)@, account_views(candidates@), node_latest, i)
                        && Some(job@) == job_of(account_views(candidates@)[i], node_latest))
                    && final(self)@ == with_session(
                    old(self)@,
                    id,
                    SessionState::Assigned,
                    Some(job@),
                ),
                Ok(None) => knows(old(self)@, id) && is_free(
                    old(self)@[position(old(self)@, id)].state,
                ) && (forall|i: int|
                    0 <= i < candidates@.len() ==> !eligible(
                        old(self)@,
                        #[trigger] account_views(candidates@)[i],
                        node_latest,
                    )) && final(self)@ == old(self)@,
                Err(e) => final(self)@ == old(self)@ && if knows(old(self)@, id) {
                    e == OreoError::Invalid && !is_free(old(self)@[position(old(self)@, id)].state)
                } else {
                    e == OreoError::NotFound
                },
            },
    {
        let at = match self.find(id) {
            Some(i) => i,
            None => {
                return Err(OreoError::NotFound);
            },
        };
        match self.sessions[at].state {
            SessionState::Connected | SessionState::Idle => {},
            _ => {
                return Err(OreoError::Invalid);
            },
        }
        let mut i: usize = 0;
        while i < candidates.len()
            invariant
                self.inv(),
                self@ == old(self)@,
                self.key() == old(self).key(),
                i <= candidates@.len(),
                knows(self@, id),
                is_free(self@[position(self@, id)].state),
                forall|j: int|
                    0 <= j < i ==> !eligible(
                        self@,
                        #[trigger] account_views(candidates@)[j],
                        node_latest,
                    ),
            decreases candidates@.len() - i,
        {
            match job_for(&candidates[i], node_latest) {
                Some(job) => {
                    if self.holder(job.address.as_str()).is_none() {
                        let given = job.clone();
                        proof {
                            assert(first_eligible(
                                self@,
                                account_views(candidates@),
                                node_latest,
                                i as int,
                            ));
                        }
                        let _ = self.assign(id, job);
                        return Ok(Some(given));
                    }
                },
                None => {},
            }
            i += 1;
        }
        Ok(None)
    }

    /// Ends the job of the session with the id `id` on the worker's signal
    /// and gives the session its next job at once: one for the first of
    /// `candidates` that has not reached `node_latest` and that no session
    /// holds a job for, the address of the ended job being unlocked first.
    /// Returns the job that ended and the job that was given; where there
    /// is none to give, the session is idle.
    pub fn finish(&mut self, id: u64, candidates: &Vec<Account>, node_latest: i64) -> (r: Result<
        (Job, Option<Job>),
        OreoError,
    >)
        requires
            old(self).inv(),
        ensures
            final(self).inv(),
            final(self).key() == old(self).key(),
            match r {
                Ok((done, next)) => {
                    let idle = with_session(old(self)@, id, SessionState::Idle, None);
                    &&& knows(old(self)@, id)
                    &&& old(self)@[position(old(self)@, id)].state == SessionState::AwaitingReport
                    &&& Some(done@) == old(self)@[position(old(self)@, id)].job
                    &&& match next {
                        Some(job) => (exists|i: int| #[trigger]
                            first_eligible(idle, account_views(candidates@), node_latest, i)
                                && Some(job@) == job_of(
                                account_views(candidates@)[i],
                                node_latest,
                            )) && final(self)@ == with_session(
                            idle,
                            id,
                            SessionState::Assigned,
                            Some(job@),
                        ),
                        None => (forall|i: int|
                            0 <= i < candidates@.len() ==> !eligible(
                                idle,
                                #[trigger] account_views(candidates@)[i],
                                node_latest,
                            )) && final(self)@ == idle,
                    }
                },
                Err(e) => final(self)@ == old(self)@ && if knows(old(self)@, id) {
                    e == OreoError::Invalid && old(self)@[position(old(self)@, id)].state
                        != SessionState::AwaitingReport
                } else {
                    e == OreoError::NotFound
                },
            },
    {
        let done = match self.complete(id) {
            Ok(job) => job,
            Err(e) => {
                return Err(e);
            },
        };
        proof {
            let idle = self@;
            assert(session_at(idle, position(old(self)@, id), id));
            lemma_session_found(idle, position(old(self)@, id));
        }
        match self.assign_next(id, candidates, node_latest) {
            Ok(next) => Ok((done, next)),
            Err(_) => Ok((done, None)),
        }
    }

    /// Gives a job out greedily: the first session that is free, in the
    /// order of connection, gets a job for the first of `candidates` that
    /// has not reached `node_latest` and that no session holds a job for.
    /// Returns the id of the session and the job, or none where no session
    /// is free or no candidate can be given out.
    pub fn dispatch(&mut self, candidates: &Vec<Account>, node_latest: i64) -> (r: Option<
        (u64, Job),
    >)
        requires
            old(self).inv(),
        ensures
            final(self).inv(),
            final(self).key() == old(self).key(),
            is_dispatch(
                old(self)@,
                account_views(candidates@),
                node_latest,
                given_view(r),
                final(self)@,
            ),
    {
        let id = match self.free_session() {
            Some(id) => id,
            None => {
                return None;
            },
        };
        match self.assign_next(id, candidates, node_latest) {
            Ok(Some(job)) => Some((id, job)),
            _ => None,
        }
    }
}

/// Whether a session in `state` may make a step that is open to assigned
/// sessions, to awaited sessions, or to both.
pub open spec fn leaves(state: SessionState, from_assigned: bool, from_awaited: bool) -> bool {
    (state == SessionState::Assigned && from_assigned) || (state == SessionState::AwaitingReport
        && from_awaited)
}

} // verus!
