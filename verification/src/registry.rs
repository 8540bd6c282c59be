//! The bookkeeping of the manager: open sessions, the terminals and
//! forwards running over them, and the health history of each host.

use vstd::prelude::*;

use crate::error::CoreError;
use crate::forward::{forward_info_views, ForwardInfo};
use crate::health::{HealthReport, HealthReportView};
use crate::jobs::{lemma_insert_multiset, JobInfo};
use crate::model::{SessionInfo, SessionInfoView};
use crate::seqs::{
    first_index, lemma_first_index, lemma_first_index_end, lemma_first_index_push, lemma_first_index_step,
    lemma_first_index_update,
};

verus! {

/// How many health reports are kept per host.
pub const HEALTH_HISTORY_CAP: usize = 120;

/// What the core tells the UI shell.
#[derive(Debug)]
pub enum CoreEvent {
    TermData { term_id: String, data: Vec<u8> },
    TermExit { term_id: String },
    Job(JobInfo),
    Health(HealthReport),
    SessionClosed(String),
}

/// A terminal and the session it runs over.
#[derive(Debug)]
pub struct TerminalLink {
    pub term_id: String,
    pub session_id: String,
}

/// The recent health reports of one host, oldest first.
#[derive(Debug)]
pub struct HealthLog {
    pub host_id: String,
    pub reports: Vec<HealthReport>,
}

/// Splits `v` into the sessions with id `key` and the others, each in
/// the order they came in.
fn split_sessions(v: Vec<SessionInfo>, key: &str) -> (r: (Vec<SessionInfo>, Vec<SessionInfo>))
    ensures
        r.0@ == v@.filter(session_is(key@)),
        r.1@ == v@.filter(|x: SessionInfo| !session_is(key@)(x)),
{
    let ghost p = session_is(key@);
    let ghost q = |x: SessionInfo| !session_is(key@)(x);
    let ghost orig = v@;
    let wanted = key.to_owned();
    let mut rest = v;
    let mut yes: Vec<SessionInfo> = Vec::new();
    let mut no: Vec<SessionInfo> = Vec::new();
    proof {
        reveal(Seq::filter);
    }
    assert(orig.take(0) =~= Seq::<SessionInfo>::empty());
    assert(orig.skip(0) =~= orig);
    while rest.len() > 0
        invariant
            rest@.len() <= orig.len(),
            rest@ == orig.skip(orig.len() - rest@.len()),
            yes@ == orig.take(orig.len() - rest@.len()).filter(p),
            no@ == orig.take(orig.len() - rest@.len()).filter(q),
            p == session_is(key@),
            q == (|x: SessionInfo| !session_is(key@)(x)),
            wanted@ == key@,
        decreases rest.len(),
    {
        let ghost i = orig.len() - rest@.len();
        let x = rest.remove(0);
        proof {
            reveal(Seq::filter);
            assert(orig.take(i + 1).drop_last() =~= orig.take(i));
            assert(orig.take(i + 1).last() == x);
            assert(rest@ =~= orig.skip(i + 1));
        }
        if x.id == wanted {
            yes.push(x);
        } else {
            no.push(x);
        }
    }
    assert(orig.take(orig.len() as int) =~= orig);
    (yes, no)
}

/// Splits `v` into the links matching `key` (by session when `by_session`,
/// else by terminal id) and the others, each in the order they came in.
fn split_links(v: Vec<TerminalLink>, key: &str, by_session: bool) -> (r: (Vec<TerminalLink>, Vec<TerminalLink>))
    ensures
        r.0@ == v@.filter(link_match(key@, by_session)),
        r.1@ == v@.filter(|x: TerminalLink| !link_match(key@, by_session)(x)),
{
    let ghost p = link_match(key@, by_session);
    let ghost q = |x: TerminalLink| !link_match(key@, by_session)(x);
    let ghost orig = v@;
    let wanted = key.to_owned();
    let mut rest = v;
    let mut yes: Vec<TerminalLink> = Vec::new();
    let mut no: Vec<TerminalLink> = Vec::new();
    proof {
        reveal(Seq::filter);
    }
    assert(orig.take(0) =~= Seq::<TerminalLink>::empty());
    assert(orig.skip(0) =~= orig);
    while rest.len() > 0
        invariant
            rest@.len() <= orig.len(),
            rest@ == orig.skip(orig.len() - rest@.len()),
            yes@ == orig.take(orig.len() - rest@.len()).filter(p),
            no@ == orig.take(orig.len() - rest@.len()).filter(q),
            p == link_match(key@, by_session),
            q == (|x: TerminalLink| !link_match(key@, by_session)(x)),
            wanted@ == key@,
        decreases rest.len(),
    {
        let ghost i = orig.len() - rest@.len();
        let x = rest.remove(0);
        proof {
            reveal(Seq::filter);
            assert(orig.take(i + 1).drop_last() =~= orig.take(i));
            assert(orig.take(i + 1).last() == x);
            assert(rest@ =~= orig.skip(i + 1));
        }
        let hit = if by_session {
            x.session_id == wanted
        } else {
            x.term_id == wanted
        };
        if hit {
            yes.push(x);
        } else {
            no.push(x);
        }
    }
    assert(orig.take(orig.len() as int) =~= orig);
    (yes, no)
}

/// Splits `v` into the forwards matching `key` (by session when
/// `by_session`, else by forward id) and the others, each in the order
/// they came in.
fn split_forwards(v: Vec<ForwardInfo>, key: &str, by_session: bool) -> (r: (Vec<ForwardInfo>, Vec<ForwardInfo>))
    ensures
        r.0@ == v@.filter(forward_match(key@, by_session)),
        r.1@ == v@.filter(|x: ForwardInfo| !forward_match(key@, by_session)(x)),
{
    let ghost p = forward_match(key@, by_session);
    let ghost q = |x: ForwardInfo| !forward_match(key@, by_session)(x);
    let ghost orig = v@;
    let wanted = key.to_owned();
    let mut rest = v;
    let mut yes: Vec<ForwardInfo> = Vec::new();
    let mut no: Vec<ForwardInfo> = Vec::new();
    proof {
        reveal(Seq::filter);
    }
    assert(orig.take(0) =~= Seq::<ForwardInfo>::empty());
    assert(orig.skip(0) =~= orig);
    while rest.len() > 0
        invariant
            rest@.len() <= orig.len(),
            rest@ == orig.skip(orig.len() - rest@.len()),
            yes@ == orig.take(orig.len() - rest@.len()).filter(p),
            no@ == orig.take(orig.len() - rest@.len()).filter(q),
            p == forward_match(key@, by_session),
            q == (|x: ForwardInfo| !forward_match(key@, by_session)(x)),
            wanted@ == key@,
        decreases rest.len(),
    {
        let ghost i = orig.len() - rest@.len();
        let x = rest.remove(0);
        proof {
            reveal(Seq::filter);
            assert(orig.take(i + 1).drop_last() =~= orig.take(i));
            assert(orig.take(i + 1).last() == x);
            assert(rest@ =~= orig.skip(i + 1));
        }
        let hit = if by_session {
            x.session_id == wanted
        } else {
            x.id == wanted
        };
        if hit {
            yes.push(x);
        } else {
            no.push(x);
        }
    }
    assert(orig.take(orig.len() as int) =~= orig);
    (yes, no)
}

pub open spec fn session_views(v: Seq<SessionInfo>) -> Seq<SessionInfoView> {
    v.map_values(|s: SessionInfo| s@)
}

/// `s` is ordered by connection time, earliest first.
pub open spec fn sorted_by_connect(s: Seq<SessionInfoView>) -> bool {
    forall|i: int, j: int| 0 <= i < j < s.len() ==> (#[trigger] s[i]).connected_at <= (#[trigger] s[j]).connected_at
}

pub open spec fn session_is(id: Seq<char>) -> spec_fn(SessionInfo) -> bool {
    |s: SessionInfo| s.id@ == id
}

pub open spec fn session_of_host(host_id: Seq<char>) -> spec_fn(SessionInfo) -> bool {
    |s: SessionInfo| s.host_id@ == host_id
}

/// The links of session `key` (`by_session`) or of terminal `key`.
pub open spec fn link_match(key: Seq<char>, by_session: bool) -> spec_fn(TerminalLink) -> bool {
    |t: TerminalLink| if by_session { t.session_id@ == key } else { t.term_id@ == key }
}

/// The forwards over session `key` (`by_session`) or with id `key`.
pub open spec fn forward_match(key: Seq<char>, by_session: bool) -> spec_fn(ForwardInfo) -> bool {
    |f: ForwardInfo| if by_session { f.session_id@ == key } else { f.id@ == key }
}

pub open spec fn log_of(host_id: Seq<char>) -> spec_fn(HealthLog) -> bool {
    |l: HealthLog| l.host_id@ == host_id
}

pub open spec fn report_views(v: Seq<HealthReport>) -> Seq<HealthReportView> {
    v.map_values(|r: HealthReport| r@)
}

/// `h` after recording `r`: `r` goes last and only the newest
/// `HEALTH_HISTORY_CAP` reports stay.
pub open spec fn capped_push(h: Seq<HealthReportView>, r: HealthReportView) -> Seq<HealthReportView> {
    let all = h.push(r);
    if all.len() > HEALTH_HISTORY_CAP {
        all.skip(all.len() - HEALTH_HISTORY_CAP)
    } else {
        all
    }
}

/// The reports kept for host `host_id` in `logs`: those of its first log.
pub open spec fn history_in(logs: Seq<HealthLog>, host_id: Seq<char>) -> Seq<HealthReportView> {
    let i = first_index(logs, log_of(host_id));
    if i < logs.len() {
        report_views(logs[i].reports@)
    } else {
        Seq::empty()
    }
}

/// A log of another host added at the end hides nothing.
proof fn lemma_history_push(logs: Seq<HealthLog>, x: HealthLog, h: Seq<char>)
    requires
        x.host_id@ != h,
    ensures
        history_in(logs.push(x), h) == history_in(logs, h),
{
    lemma_first_index_push(logs, x, log_of(h));
    lemma_first_index(logs, log_of(h));
}

/// Replacing the log at `i` by one of the same host leaves the other
/// hosts' histories as they were.
proof fn lemma_history_update(logs: Seq<HealthLog>, i: int, x: HealthLog, h: Seq<char>)
    requires
        0 <= i < logs.len(),
        x.host_id@ == logs[i].host_id@,
        h != x.host_id@,
    ensures
        history_in(logs.update(i, x), h) == history_in(logs, h),
{
    lemma_first_index_update(logs, i, x, log_of(h));
    lemma_first_index(logs, log_of(h));
}

/// A history never holds more than `HEALTH_HISTORY_CAP` reports, keeps the
/// newest one last, and loses only its oldest ones.
pub proof fn law_history_capped(h: Seq<HealthReportView>, r: HealthReportView)
    requires
        h.len() <= HEALTH_HISTORY_CAP,
    ensures
        capped_push(h, r).len() <= HEALTH_HISTORY_CAP,
        capped_push(h, r).last() == r,
        capped_push(h, r).len() == (if h.len() < HEALTH_HISTORY_CAP { h.len() + 1 } else { HEALTH_HISTORY_CAP as nat }),
        forall|k: int| 0 <= k < capped_push(h, r).len() - 1 ==> #[trigger] capped_push(h, r)[k]
            == h[k + h.len() + 1 - capped_push(h, r).len()],
{
}

/// Once a session is cleaned up, no session with its id is left.
pub proof fn law_cleanup_then_gone(sessions: Seq<SessionInfo>, id: Seq<char>)
    ensures
        first_index(sessions.filter(|s: SessionInfo| !session_is(id)(s)), session_is(id))
            == sessions.filter(|s: SessionInfo| !session_is(id)(s)).len(),
{
    let f = sessions.filter(|s: SessionInfo| !session_is(id)(s));
    lemma_first_index(f, session_is(id));
    if first_index(f, session_is(id)) < f.len() {
        let k = first_index(f, session_is(id));
        sessions.lemma_filter_pred(|s: SessionInfo| !session_is(id)(s), k);
    }
}

/// A session just recorded is the one found under its id, whatever was
/// recorded under that id before.
pub proof fn law_add_then_get_session(sessions: Seq<SessionInfo>, info: SessionInfo)
    ensures
        ({
            let after = sessions.filter(|s: SessionInfo| !session_is(info.id@)(s)).push(info);
            first_index(after, session_is(info.id@)) == after.len() - 1
        }),
{
    let f = sessions.filter(|s: SessionInfo| !session_is(info.id@)(s));
    law_cleanup_then_gone(sessions, info.id@);
    lemma_first_index_push(f, info, session_is(info.id@));
}

/// What a session's cleanup took down.
#[derive(Debug)]
pub struct SessionCleanup {
    pub sessions: Vec<SessionInfo>,
    pub terminals: Vec<TerminalLink>,
    pub forwards: Vec<ForwardInfo>,
}

/// The sessions, terminals, forwards and health histories the manager
/// keeps track of.
#[derive(Debug)]
pub struct Registry {
    pub sessions: Vec<SessionInfo>,
    pub terminals: Vec<TerminalLink>,
    pub forwards: Vec<ForwardInfo>,
    pub health: Vec<HealthLog>,
}

impl Registry {
    /// Nothing open, no history.
    pub fn new() -> (r: Self)
        ensures
            r.sessions@.len() == 0,
            r.terminals@.len() == 0,
            r.forwards@.len() == 0,
            r.health@.len() == 0,
    {
        Registry { sessions: Vec::new(), terminals: Vec::new(), forwards: Vec::new(), health: Vec::new() }
    }

    /// Index of the first session with id `id`.
    fn session_index(&self, id: &str) -> (i: usize)
        ensures
            i == first_index(self.sessions@, session_is(id@)),
    {
        let ghost p = session_is(id@);
        let wanted = id.to_owned();
        let mut i: usize = 0;
        assert(self.sessions@.take(0) =~= Seq::<SessionInfo>::empty());
        while i < self.sessions.len()
            invariant
                i <= self.sessions.len(),
                wanted@ == id@,
                p == session_is(id@),
                first_index(self.sessions@.take(i as int), p) == i,
            decreases self.sessions.len() - i,
        {
            proof {
                lemma_first_index_step(self.sessions@, i as int, p);
            }
            if self.sessions[i].id == wanted {
                return i;
            }
            i = i + 1;
        }
        proof {
            lemma_first_index_end(self.sessions@, p);
        }
        i
    }

    /// Records an open session, in place of any earlier one with its id.
    pub fn add_session(&mut self, info: SessionInfo)
        ensures
            final(self).sessions@ == old(self).sessions@.filter(|s: SessionInfo| !session_is(info.id@)(s)).push(
                info,
            ),
            final(self).terminals == old(self).terminals,
            final(self).forwards == old(self).forwards,
            final(self).health == old(self).health,
    {
        let mut ss = Vec::new();
        std::mem::swap(&mut ss, &mut self.sessions);
        let (_, mut kept) = split_sessions(ss, info.id.as_str());
        kept.push(info);
        self.sessions = kept;
    }

    /// The session with id `id`.
    pub fn get_session(&self, id: &str) -> (r: Result<SessionInfo, CoreError>)
        ensures
            ({
                let i = first_index(self.sessions@, session_is(id@));
                match r {
                    Ok(s) => i < self.sessions@.len() && s@ == self.sessions@[i]@,
                    Err(e) => i == self.sessions@.len() && (e matches CoreError::SessionNotFound(m) && m@ == id@),
                }
            }),
    {
        let i = self.session_index(id);
        proof {
            lemma_first_index(self.sessions@, session_is(id@));
        }
        if i < self.sessions.len() {
            Ok(self.sessions[i].clone())
        } else {
            Err(CoreError::SessionNotFound(id.to_owned()))
        }
    }

    /// Whether session `id` is open.
    pub fn has_session(&self, id: &str) -> (b: bool)
        ensures
            b == (first_index(self.sessions@, session_is(id@)) < self.sessions@.len()),
    {
        self.session_index(id) < self.sessions.len()
    }

    /// An open session to host `host_id`, if any.
    pub fn session_for_host(&self, host_id: &str) -> (r: Option<SessionInfo>)
        ensures
            ({
                let i = first_index(self.sessions@, session_of_host(host_id@));
                match r {
                    Some(s) => i < self.sessions@.len() && s@ == self.sessions@[i]@,
                    None => i == self.sessions@.len(),
                }
            }),
    {
        let ghost p = session_of_host(host_id@);
        let wanted = host_id.to_owned();
        let mut i: usize = 0;
        assert(self.sessions@.take(0) =~= Seq::<SessionInfo>::empty());
        while i < self.sessions.len()
            invariant
                i <= self.sessions.len(),
                wanted@ == host_id@,
                p == session_of_host(host_id@),
                first_index(self.sessions@.take(i as int), p) == i,
            decreases self.sessions.len() - i,
        {
            proof {
                lemma_first_index_step(self.sessions@, i as int, p);
            }
            if self.sessions[i].host_id == wanted {
                return Some(self.sessions[i].clone());
            }
            i = i + 1;
        }
        proof {
            lemma_first_index_end(self.sessions@, p);
        }
        None
    }

    /// The open sessions, earliest connection first.
    pub fn list_sessions(&self) -> (r: Vec<SessionInfo>)
        ensures
            sorted_by_connect(session_views(r@)),
            session_views(r@).to_multiset() == session_views(self.sessions@).to_multiset(),
    {
        let ghost all = session_views(self.sessions@);
        let mut r: Vec<SessionInfo> = Vec::new();
        let mut i: usize = 0;
        assert(all.take(0) =~= session_views(r@));
        while i < self.sessions.len()
            invariant
                i <= self.sessions.len(),
                all == session_views(self.sessions@),
                sorted_by_connect(session_views(r@)),
                session_views(r@).to_multiset() == all.take(i as int).to_multiset(),
            decreases self.sessions.len() - i,
        {
            let x = self.sessions[i].clone();
            let ghost xv = x@;
            let ghost rv = session_views(r@);
            let mut k: usize = 0;
            while k < r.len() && r[k].connected_at <= x.connected_at
                invariant
                    k <= r.len(),
                    rv == session_views(r@),
                    xv == x@,
                    forall|j: int| 0 <= j < k ==> (#[trigger] rv[j]).connected_at <= xv.connected_at,
                decreases r.len() - k,
            {
                k = k + 1;
            }
            r.insert(k, x);
            proof {
                let nv = session_views(r@);
                assert(nv =~= rv.insert(k as int, xv));
                assert forall|a: int, b: int| 0 <= a < b < nv.len() implies (#[trigger] nv[a]).connected_at
                    <= (#[trigger] nv[b]).connected_at by {
                    if b == k {
                        assert(nv[a] == rv[a]);
                    } else if a == k {
                        assert(nv[b] == rv[b - 1]);
                        assert(rv[k as int].connected_at > xv.connected_at);
                        if b - 1 > k {
                            assert(rv[k as int].connected_at <= rv[b - 1].connected_at);
                        }
                    } else if a < k && b > k {
                        assert(nv[a] == rv[a] && nv[b] == rv[b - 1]);
                    } else if a < k {
                        assert(nv[a] == rv[a] && nv[b] == rv[b]);
                    } else {
                        assert(nv[a] == rv[a - 1] && nv[b] == rv[b - 1]);
                    }
                }
                lemma_insert_multiset(rv, k as int, xv);
                assert(all.take(i + 1) =~= all.take(i as int).push(xv));
                all.take(i as int).to_multiset_ensures();
            }
            i = i + 1;
        }
        assert(all.take(i as int) =~= all);
        r
    }

    /// Records terminal `term_id` running over session `session_id`, in
    /// place of any earlier record of that terminal.
    pub fn add_terminal(&mut self, term_id: String, session_id: String)
        ensures
            final(self).terminals@ == old(self).terminals@.filter(
                |t: TerminalLink| !link_match(term_id@, false)(t),
            ).push(TerminalLink { term_id, session_id }),
            final(self).sessions == old(self).sessions,
            final(self).forwards == old(self).forwards,
            final(self).health == old(self).health,
    {
        let mut ts = Vec::new();
        std::mem::swap(&mut ts, &mut self.terminals);
        let (_, mut kept) = split_links(ts, term_id.as_str(), false);
        kept.push(TerminalLink { term_id, session_id });
        self.terminals = kept;
    }

    /// The session that terminal `term_id` runs over; fails for an unknown
    /// terminal.
    pub fn get_terminal(&self, term_id: &str) -> (r: Result<String, CoreError>)
        ensures
            ({
                let i = first_index(self.terminals@, link_match(term_id@, false));
                match r {
                    Ok(s) => i < self.terminals@.len() && s@ == self.terminals@[i].session_id@,
                    Err(e) => i == self.terminals@.len() && (e matches CoreError::TerminalNotFound(m)
                        && m@ == term_id@),
                }
            }),
    {
        let ghost p = link_match(term_id@, false);
        let wanted = term_id.to_owned();
        let mut i: usize = 0;
        assert(self.terminals@.take(0) =~= Seq::<TerminalLink>::empty());
        while i < self.terminals.len()
            invariant
                i <= self.terminals.len(),
                wanted@ == term_id@,
                p == link_match(term_id@, false),
                first_index(self.terminals@.take(i as int), p) == i,
            decreases self.terminals.len() - i,
        {
            proof {
                lemma_first_index_step(self.terminals@, i as int, p);
            }
            if self.terminals[i].term_id == wanted {
                return Ok(self.terminals[i].session_id.clone());
            }
            i = i + 1;
        }
        proof {
            lemma_first_index_end(self.terminals@, p);
        }
        Err(CoreError::TerminalNotFound(term_id.to_owned()))
    }

    /// Forgets terminal `term_id`; whether it was known.
    pub fn remove_terminal(&mut self, term_id: &str) -> (found: bool)
        ensures
            final(self).terminals@ == old(self).terminals@.filter(
                |t: TerminalLink| !link_match(term_id@, false)(t),
            ),
            found == (old(self).terminals@.filter(link_match(term_id@, false)).len() > 0),
            final(self).sessions == old(self).sessions,
            final(self).forwards == old(self).forwards,
            final(self).health == old(self).health,
    {
        let mut links = Vec::new();
        std::mem::swap(&mut links, &mut self.terminals);
        let (matching, kept) = split_links(links, term_id, false);
        self.terminals = kept;
        matching.len() > 0
    }

    /// Records a running forward, in place of any earlier one with its id.
    pub fn add_forward(&mut self, info: ForwardInfo)
        ensures
            final(self).forwards@ == old(self).forwards@.filter(
                |f: ForwardInfo| !forward_match(info.id@, false)(f),
            ).push(info),
            final(self).sessions == old(self).sessions,
            final(self).terminals == old(self).terminals,
            final(self).health == old(self).health,
    {
        let mut fs = Vec::new();
        std::mem::swap(&mut fs, &mut self.forwards);
        let (_, mut kept) = split_forwards(fs, info.id.as_str(), false);
        kept.push(info);
        self.forwards = kept;
    }

    /// Takes forward `id` out of the registry, for stopping; fails for an
    /// unknown forward.
    pub fn remove_forward(&mut self, id: &str) -> (r: Result<Vec<ForwardInfo>, CoreError>)
        ensures
            final(self).forwards@ == old(self).forwards@.filter(
                |f: ForwardInfo| !forward_match(id@, false)(f),
            ),
            match r {
                Ok(taken) => taken@ == old(self).forwards@.filter(forward_match(id@, false))
                    && taken@.len() > 0,
                Err(e) => old(self).forwards@.filter(forward_match(id@, false)).len() == 0 && (e matches CoreError::ForwardNotFound(
                    m,
                ) && m@ == id@),
            },
            final(self).sessions == old(self).sessions,
            final(self).terminals == old(self).terminals,
            final(self).health == old(self).health,
    {
        let mut fs = Vec::new();
        std::mem::swap(&mut fs, &mut self.forwards);
        let (matching, kept) = split_forwards(fs, id, false);
        self.forwards = kept;
        if matching.len() == 0 {
            return Err(CoreError::ForwardNotFound(id.to_owned()));
        }
        Ok(matching)
    }

    /// Copies of the running forwards.
    pub fn list_forwards(&self) -> (r: Vec<ForwardInfo>)
        ensures
            forward_info_views(r@) == forward_info_views(self.forwards@),
    {
        let mut r: Vec<ForwardInfo> = Vec::new();
        let mut i: usize = 0;
        while i < self.forwards.len()
            invariant
                i <= self.forwards.len(),
                forward_info_views(r@) == forward_info_views(self.forwards@).take(i as int),
            decreases self.forwards.len() - i,
        {
            let ghost before = forward_info_views(r@);
            r.push(self.forwards[i].clone());
            assert(forward_info_views(r@) =~= before.push(self.forwards@[i as int]@));
            assert(forward_info_views(self.forwards@).take(i + 1) =~= forward_info_views(self.forwards@).take(
                i as int,
            ).push(self.forwards@[i as int]@));
            i = i + 1;
        }
        assert(forward_info_views(self.forwards@).take(i as int) =~= forward_info_views(self.forwards@));
        r
    }

    /// Takes session `session_id` down in the registry: the session, the
    /// terminals over it and the forwards over it are removed and handed
    /// back (to be closed and stopped); everything else stays.
    pub fn cleanup_session(&mut self, session_id: &str) -> (c: SessionCleanup)
        ensures
            final(self).sessions@ == old(self).sessions@.filter(
                |s: SessionInfo| !session_is(session_id@)(s),
            ),
            final(self).terminals@ == old(self).terminals@.filter(
                |t: TerminalLink| !link_match(session_id@, true)(t),
            ),
            final(self).forwards@ == old(self).forwards@.filter(
                |f: ForwardInfo| !forward_match(session_id@, true)(f),
            ),
            c.sessions@ == old(self).sessions@.filter(session_is(session_id@)),
            c.terminals@ == old(self).terminals@.filter(link_match(session_id@, true)),
            c.forwards@ == old(self).forwards@.filter(forward_match(session_id@, true)),
            final(self).health == old(self).health,
    {
        let mut ss = Vec::new();
        std::mem::swap(&mut ss, &mut self.sessions);
        let (gone_s, kept_s) = split_sessions(ss, session_id);
        self.sessions = kept_s;
        let mut ts = Vec::new();
        std::mem::swap(&mut ts, &mut self.terminals);
        let (gone_t, kept_t) = split_links(ts, session_id, true);
        self.terminals = kept_t;
        let mut fs = Vec::new();
        std::mem::swap(&mut fs, &mut self.forwards);
        let (gone_f, kept_f) = split_forwards(fs, session_id, true);
        self.forwards = kept_f;
        SessionCleanup { sessions: gone_s, terminals: gone_t, forwards: gone_f }
    }

    /// Index of the health log of host `host_id`.
    fn log_index(&self, host_id: &str) -> (i: usize)
        ensures
            i == first_index(self.health@, log_of(host_id@)),
    {
        let ghost p = log_of(host_id@);
        let wanted = host_id.to_owned();
        let mut i: usize = 0;
        assert(self.health@.take(0) =~= Seq::<HealthLog>::empty());
        while i < self.health.len()
            invariant
                i <= self.health.len(),
                wanted@ == host_id@,
                p == log_of(host_id@),
                first_index(self.health@.take(i as int), p) == i,
            decreases self.health.len() - i,
        {
            proof {
                lemma_first_index_step(self.health@, i as int, p);
            }
            if self.health[i].host_id == wanted {
                return i;
            }
            i = i + 1;
        }
        proof {
            lemma_first_index_end(self.health@, p);
        }
        i
    }

    /// The health history of host `host_id`, oldest first.
    pub open spec fn history(&self, host_id: Seq<char>) -> Seq<HealthReportView> {
        history_in(self.health@, host_id)
    }

    /// Appends `report` to its host's history, dropping the oldest reports
    /// beyond `HEALTH_HISTORY_CAP`.
    pub fn record_health(&mut self, report: HealthReport)
        ensures
            final(self).history(report@.host_id) == capped_push(old(self).history(report@.host_id), report@),
            forall|h: Seq<char>| h != report@.host_id ==> #[trigger] final(self).history(h) == old(self).history(h),
            final(self).sessions == old(self).sessions,
            final(self).terminals == old(self).terminals,
            final(self).forwards == old(self).forwards,
    {
        let ghost rv = report@;
        let ghost old_health = self.health@;
        let host = report.host_id.clone();
        let i = self.log_index(host.as_str());
        proof {
            lemma_first_index(self.health@, log_of(rv.host_id));
        }
        if i == self.health.len() {
            self.health.push(HealthLog { host_id: host, reports: Vec::new() });
            proof {
                let x = self.health@[i as int];
                assert(self.health@ =~= old_health.push(x));
                lemma_first_index_push(old_health, x, log_of(rv.host_id));
                assert forall|h: Seq<char>| h != rv.host_id implies #[trigger] history_in(self.health@, h)
                    == history_in(old_health, h) by {
                    lemma_history_push(old_health, x, h);
                }
                assert(report_views(x.reports@) =~= Seq::<HealthReportView>::empty());
            }
        }
        let ghost mid = self.health@;
        proof {
            lemma_first_index(mid, log_of(rv.host_id));
            assert(first_index(mid, log_of(rv.host_id)) == i);
            assert(report_views(mid[i as int].reports@) == history_in(old_health, rv.host_id));
        }
        let mut logs: Vec<HealthLog> = Vec::new();
        std::mem::swap(&mut logs, &mut self.health);
        let mut log = logs.remove(i);
        let ghost hid = log.host_id@;
        let ghost all = report_views(log.reports@).push(rv);
        log.reports.push(report);
        assert(report_views(log.reports@) =~= all);
        assert(all.skip(0) =~= all);
        while log.reports.len() > HEALTH_HISTORY_CAP
            invariant
                log.host_id@ == hid,
                log.reports@.len() <= all.len(),
                report_views(log.reports@) == all.skip(all.len() - log.reports@.len()),
                all.len() > HEALTH_HISTORY_CAP ==> log.reports@.len() >= HEALTH_HISTORY_CAP,
                all.len() <= HEALTH_HISTORY_CAP ==> log.reports@.len() == all.len(),
            decreases log.reports.len(),
        {
            let ghost cur = report_views(log.reports@);
            log.reports.remove(0);
            assert(report_views(log.reports@) =~= cur.skip(1));
            assert(all.skip(all.len() - log.reports@.len()) =~= cur.skip(1));
        }
        assert(report_views(log.reports@) == capped_push(report_views(mid[i as int].reports@), rv));
        logs.insert(i, log);
        self.health = logs;
        proof {
            let x = self.health@[i as int];
            assert(self.health@ =~= mid.update(i as int, x));
            lemma_first_index_update(mid, i as int, x, log_of(rv.host_id));
            assert forall|h: Seq<char>| h != rv.host_id implies #[trigger] history_in(self.health@, h)
                == history_in(mid, h) by {
                lemma_history_update(mid, i as int, x, h);
            }
        }
    }

    /// The health history of host `host_id`, oldest first.
    pub fn get_health_history(&self, host_id: &str) -> (r: Vec<HealthReport>)
        ensures
            report_views(r@) == self.history(host_id@),
    {
        let i = self.log_index(host_id);
        if i == self.health.len() {
            let r: Vec<HealthReport> = Vec::new();
            assert(report_views(r@) =~= Seq::<HealthReportView>::empty());
            return r;
        }
        let reports = &self.health[i].reports;
        let mut r: Vec<HealthReport> = Vec::new();
        let mut k: usize = 0;
        while k < reports.len()
            invariant
                k <= reports.len(),
                report_views(r@) == report_views(reports@).take(k as int),
            decreases reports.len() - k,
        {
            let ghost b = report_views(r@);
            r.push(reports[k].clone());
            assert(report_views(r@) =~= b.push(reports@[k as int]@));
            assert(report_views(reports@).take(k + 1) =~= report_views(reports@).take(k as int).push(reports@[k as int]@));
            k = k + 1;
        }
        assert(report_views(reports@).take(k as int) =~= report_views(reports@));
        r
    }
}

/// The interval of a host's health monitor: its setting clamped to between
/// 5 seconds and a day.
pub fn monitor_interval(secs: u64) -> (r: u64)
    ensures
        r == (if secs < 5 { 5 } else if secs > 86400 { 86400 } else { secs }),
{
    if secs < 5 {
        5
    } else if secs > 86400 {
        86400
    } else {
        secs
    }
}

} // verus!
