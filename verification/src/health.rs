//! Server health: the reachability report and the parsing of the combined
//! metrics probe that runs over an open session.

use vstd::prelude::*;
use vstd::string::*;

use crate::error::{error_message, prefixed, CoreError};
use crate::model::{copy_opt_string, opt_view};
use crate::number::{is_number, is_number_at};
use crate::text::{chars_of, string_of, trim, trim_bounds, views, words, words_of};

verus! {

/// One combined remote command; its sections are separated by `@@` so that
/// a single round-trip collects everything.
pub const PROBE_CMD: &'static str = "uptime 2>/dev/null; echo @@; cat /proc/loadavg 2>/dev/null; echo @@; free -b 2>/dev/null | awk 'NR==2{print $2, $3}'; echo @@; df -P / 2>/dev/null | awk 'NR==2{print $5}'";

/// The result of one health check.
#[derive(Debug)]
pub struct HealthReport {
    pub host_id: String,
    pub timestamp: u64,
    pub reachable: bool,
    pub latency_ms: Option<u64>,
    pub ssh_ok: bool,
    pub uptime: Option<String>,
    pub load_avg: Option<String>,
    /// The total and used memory the probe reported, from which the
    /// shell computes the used percentage.
    pub mem_figures: Option<MemFigures>,
    /// Used space of `/` in percent, the number as `df` prints it.
    pub disk_used_pct: Option<String>,
    pub error: Option<String>,
}

/// Total and used memory, in bytes, as the probe printed them (each text a
/// number as `is_number` reads them). The used share is `used / total`,
/// clamped to `[0, 1]`, when `total` is above zero; the shell computes it in
/// floating point, as the numbers are floating-point values.
#[derive(Debug)]
pub struct MemFigures {
    pub total: String,
    pub used: String,
}

/// What `MemFigures` holds, as plain values.
pub struct MemFiguresView {
    pub total: Seq<char>,
    pub used: Seq<char>,
}

impl View for MemFigures {
    type V = MemFiguresView;

    open spec fn view(&self) -> MemFiguresView {
        MemFiguresView { total: self.total@, used: self.used@ }
    }
}

impl Clone for MemFigures {
    fn clone(&self) -> (r: Self)
        ensures
            r@ == self@,
    {
        MemFigures { total: self.total.clone(), used: self.used.clone() }
    }
}

pub open spec fn opt_figures_view(o: Option<MemFigures>) -> Option<MemFiguresView> {
    match o {
        Some(f) => Some(f@),
        None => None,
    }
}

/// What a `HealthReport` holds, as plain values.
pub struct HealthReportView {
    pub host_id: Seq<char>,
    pub timestamp: u64,
    pub reachable: bool,
    pub latency_ms: Option<u64>,
    pub ssh_ok: bool,
    pub uptime: Option<Seq<char>>,
    pub load_avg: Option<Seq<char>>,
    pub mem_figures: Option<MemFiguresView>,
    pub disk_used_pct: Option<Seq<char>>,
    pub error: Option<Seq<char>>,
}

impl View for HealthReport {
    type V = HealthReportView;

    open spec fn view(&self) -> HealthReportView {
        HealthReportView {
            host_id: self.host_id@,
            timestamp: self.timestamp,
            reachable: self.reachable,
            latency_ms: self.latency_ms,
            ssh_ok: self.ssh_ok,
            uptime: opt_view(self.uptime),
            load_avg: opt_view(self.load_avg),
            mem_figures: opt_figures_view(self.mem_figures),
            disk_used_pct: opt_view(self.disk_used_pct),
            error: opt_view(self.error),
        }
    }
}

impl Clone for HealthReport {
    fn clone(&self) -> (r: Self)
        ensures
            r@ == self@,
    {
        HealthReport {
            host_id: self.host_id.clone(),
            timestamp: self.timestamp,
            reachable: self.reachable,
            latency_ms: self.latency_ms,
            ssh_ok: self.ssh_ok,
            uptime: copy_opt_string(&self.uptime),
            load_avg: copy_opt_string(&self.load_avg),
            mem_figures: match &self.mem_figures {
                Some(f) => Some(f.clone()),
                None => None,
            },
            disk_used_pct: copy_opt_string(&self.disk_used_pct),
            error: copy_opt_string(&self.error),
        }
    }
}

/// First index `j >= i` at which `@@` starts in `s`, or `s.len()`.
pub open spec fn find_marker(s: Seq<char>, i: int) -> int
    decreases s.len() - i,
{
    if i < 0 || i + 1 >= s.len() {
        s.len() as int
    } else if s[i] == '@' && s[i + 1] == '@' {
        i
    } else {
        find_marker(s, i + 1)
    }
}

pub proof fn lemma_find_marker(s: Seq<char>, i: int)
    requires
        0 <= i <= s.len(),
    ensures
        find_marker(s, i) >= i,
        find_marker(s, i) < s.len() ==> find_marker(s, i) + 2 <= s.len(),
    decreases s.len() - i,
{
    if i + 1 < s.len() && !(s[i] == '@' && s[i + 1] == '@') {
        lemma_find_marker(s, i + 1);
    }
}

/// The pieces of `s[start..]` between occurrences of `@@`, left to right.
pub open spec fn sections_from(s: Seq<char>, start: int) -> Seq<Seq<char>>
    decreases s.len() - start,
{
    if start < 0 || start > s.len() {
        seq![]
    } else {
        let j = find_marker(s, start);
        proof {
            lemma_find_marker(s, start);
        }
        if j >= s.len() {
            seq![s.subrange(start, s.len() as int)]
        } else {
            seq![s.subrange(start, j)] + sections_from(s, j + 2)
        }
    }
}

/// `s.split("@@")`.
pub open spec fn sections(s: Seq<char>) -> Seq<Seq<char>> {
    sections_from(s, 0)
}

/// The pieces `v[r.0..r.1]` for the ranges `r` of `rs`.
pub open spec fn pieces(v: Seq<char>, rs: Seq<(usize, usize)>) -> Seq<Seq<char>> {
    rs.map_values(|r: (usize, usize)| v.subrange(r.0 as int, r.1 as int))
}

/// The ranges of the `@@`-separated sections of `v`.
pub fn section_ranges(v: &Vec<char>) -> (rs: Vec<(usize, usize)>)
    ensures
        pieces(v@, rs@) == sections(v@),
        forall|k: int| 0 <= k < rs.len() ==> #[trigger] rs@[k].0 <= rs@[k].1 <= v.len(),
{
    let n = v.len();
    let mut rs: Vec<(usize, usize)> = Vec::new();
    let mut start: usize = 0;
    let mut i: usize = 0;
    while n >= 2 && i < n - 1
        invariant
            n == v.len(),
            start <= i <= n,
            find_marker(v@, start as int) == find_marker(v@, i as int),
            pieces(v@, rs@) + sections_from(v@, start as int) == sections(v@),
            forall|k: int| 0 <= k < rs.len() ==> #[trigger] rs@[k].0 <= rs@[k].1 <= v.len(),
        decreases n - i,
    {
        if v[i] == '@' && v[i + 1] == '@' {
            let ghost before = pieces(v@, rs@);
            proof {
                lemma_find_marker(v@, start as int);
            }
            rs.push((start, i));
            assert forall|k: int| 0 <= k < rs.len() implies #[trigger] rs@[k].0 <= rs@[k].1 <= v.len() by {
                if k == rs.len() - 1 {
                    assert(rs@[k] == (start, i));
                }
            }
            assert(pieces(v@, rs@) =~= before.push(v@.subrange(start as int, i as int)));
            assert(sections_from(v@, start as int) == seq![v@.subrange(start as int, i as int)]
                + sections_from(v@, i + 2));
            assert(pieces(v@, rs@) + sections_from(v@, i + 2) =~= before + sections_from(v@, start as int));
            i = i + 2;
            start = i;
        } else {
            i = i + 1;
        }
    }
    let ghost before = pieces(v@, rs@);
    proof {
        lemma_find_marker(v@, start as int);
    }
    rs.push((start, n));
    assert forall|k: int| 0 <= k < rs.len() implies #[trigger] rs@[k].0 <= rs@[k].1 <= v.len() by {
        if k == rs.len() - 1 {
            assert(rs@[k] == (start, n));
        }
    }
    assert(pieces(v@, rs@) =~= before.push(v@.subrange(start as int, n as int)));
    assert(sections_from(v@, start as int) =~= seq![v@.subrange(start as int, n as int)]);
    rs
}

/// The numbers among `ws`, in order (other words are skipped).
pub open spec fn numbers(ws: Seq<Seq<char>>) -> Seq<Seq<char>>
    decreases ws.len(),
{
    if ws.len() == 0 {
        seq![]
    } else {
        let rest = numbers(ws.drop_last());
        if is_number(ws.last()) {
            rest.push(ws.last())
        } else {
            rest
        }
    }
}

/// What the probe says of uptime: the trimmed first section, if not empty.
pub open spec fn probe_uptime(out: Seq<char>) -> Option<Seq<char>> {
    let t = trim(sections(out)[0]);
    if t.len() > 0 {
        Some(t)
    } else {
        None
    }
}

/// What the probe says of load: the first three words of the second
/// section, joined by single spaces, when there are three.
pub open spec fn probe_load(out: Seq<char>) -> Option<Seq<char>> {
    if sections(out).len() > 1 {
        let w = words(sections(out)[1]);
        if w.len() >= 3 {
            Some(w[0] + " "@ + w[1] + " "@ + w[2])
        } else {
            None
        }
    } else {
        None
    }
}

/// What the probe says of memory: the first two numbers of the third
/// section, `total used`, when there are two.
pub open spec fn probe_mem(out: Seq<char>) -> Option<MemFiguresView> {
    if sections(out).len() > 2 {
        let n = numbers(words(sections(out)[2]));
        if n.len() >= 2 {
            Some(MemFiguresView { total: n[0], used: n[1] })
        } else {
            None
        }
    } else {
        None
    }
}

/// What the probe says of disk use: the trimmed fourth section without its
/// final `%`, when that is a number.
pub open spec fn probe_disk(out: Seq<char>) -> Option<Seq<char>> {
    if sections(out).len() > 3 {
        let d = trim(sections(out)[3]);
        if d.len() > 0 && d.last() == '%' && is_number(d.drop_last()) {
            Some(d.drop_last())
        } else {
            None
        }
    } else {
        None
    }
}

/// The numbers among the words `v[lo..hi]` (at most the first two).
fn first_two_numbers(v: &Vec<char>, lo: usize, hi: usize) -> (r: (Option<String>, Option<String>))
    requires
        lo <= hi <= v.len(),
    ensures
        ({
            let n = numbers(words(v@.subrange(lo as int, hi as int)));
            &&& n.len() >= 1 <==> r.0 is Some
            &&& n.len() >= 1 ==> opt_view(r.0) == Some(n[0])
            &&& n.len() >= 2 <==> r.1 is Some
            &&& n.len() >= 2 ==> opt_view(r.1) == Some(n[1])
        }),
{
    let ws = words_of(v, lo, hi);
    let ghost wv = words(v@.subrange(lo as int, hi as int));
    let mut first: Option<String> = None;
    let mut second: Option<String> = None;
    let mut i: usize = 0;
    while i < ws.len()
        invariant
            i <= ws.len(),
            views(ws@) == wv,
            ({
                let n = numbers(wv.take(i as int));
                &&& n.len() >= 1 <==> first is Some
                &&& n.len() >= 1 ==> opt_view(first) == Some(n[0])
                &&& n.len() >= 2 <==> second is Some
                &&& n.len() >= 2 ==> opt_view(second) == Some(n[1])
            }),
        decreases ws.len() - i,
    {
        let cs = chars_of(ws[i].as_str());
        let yes = is_number_at(&cs, 0, cs.len());
        assert(cs@.subrange(0, cs@.len() as int) =~= cs@);
        assert(wv.take(i + 1).drop_last() =~= wv.take(i as int));
        assert(wv[i as int] == ws@[i as int]@);
        let ghost prev = numbers(wv.take(i as int));
        assert(numbers(wv.take(i + 1)) == (if is_number(wv[i as int]) {
            prev.push(wv[i as int])
        } else {
            prev
        }));
        if yes {
            if first.is_none() {
                first = Some(ws[i].clone());
            } else if second.is_none() {
                second = Some(ws[i].clone());
            }
        }
        i = i + 1;
    }
    assert(wv.take(ws.len() as int) =~= wv);
    (first, second)
}

/// Reads the four `@@`-separated probe sections into `report`. A value is
/// set only where its section parses; every other field is left as it was.
pub fn parse_probe(output: &str, report: &mut HealthReport)
    ensures
        final(report).host_id == old(report).host_id,
        final(report).timestamp == old(report).timestamp,
        final(report).reachable == old(report).reachable,
        final(report).latency_ms == old(report).latency_ms,
        final(report).ssh_ok == old(report).ssh_ok,
        final(report).error == old(report).error,
        opt_view(final(report).uptime) == (match probe_uptime(output@) {
            Some(u) => Some(u),
            None => opt_view(old(report).uptime),
        }),
        opt_view(final(report).load_avg) == (match probe_load(output@) {
            Some(l) => Some(l),
            None => opt_view(old(report).load_avg),
        }),
        opt_figures_view(final(report).mem_figures) == (match probe_mem(output@) {
            Some(m) => Some(m),
            None => opt_figures_view(old(report).mem_figures),
        }),
        opt_view(final(report).disk_used_pct) == (match probe_disk(output@) {
            Some(d) => Some(d),
            None => opt_view(old(report).disk_used_pct),
        }),
{
    let v = chars_of(output);
    let rs = section_ranges(&v);
    let ghost secs = sections(output@);
    assert(secs.len() == rs@.len());
    proof {
        lemma_find_marker(v@, 0);
    }
    assert(rs@.len() >= 1);
    // Uptime: the first section, trimmed.
    let (a0, b0) = rs[0];
    assert(secs[0] == v@.subrange(a0 as int, b0 as int));
    let (ta, tb) = trim_bounds(&v, a0, b0);
    if ta < tb {
        report.uptime = Some(string_of(&v, ta, tb));
    }
    // Load average: three words of the second section.
    if rs.len() > 1 {
        let (a1, b1) = rs[1];
        assert(secs[1] == v@.subrange(a1 as int, b1 as int));
        let ws = words_of(&v, a1, b1);
        if ws.len() >= 3 {
            let mut s = ws[0].clone();
            s.append(" ");
            s.append(ws[1].as_str());
            s.append(" ");
            s.append(ws[2].as_str());
            assert(ws@[0]@ == views(ws@)[0]);
            assert(ws@[1]@ == views(ws@)[1]);
            assert(ws@[2]@ == views(ws@)[2]);
            report.load_avg = Some(s);
        }
    }
    // Memory: total and used bytes of the third section.
    if rs.len() > 2 {
        let (a2, b2) = rs[2];
        assert(secs[2] == v@.subrange(a2 as int, b2 as int));
        let (total, used) = first_two_numbers(&v, a2, b2);
        match (total, used) {
            (Some(t), Some(u)) => {
                report.mem_figures = Some(MemFigures { total: t, used: u });
            },
            _ => {},
        }
    }
    // Disk: the fourth section, a percentage.
    if rs.len() > 3 {
        let (a3, b3) = rs[3];
        assert(secs[3] == v@.subrange(a3 as int, b3 as int));
        let (da, db) = trim_bounds(&v, a3, b3);
        if da < db && v[db - 1] == '%' {
            assert(v@.subrange(da as int, db as int).drop_last() =~= v@.subrange(da as int, db - 1));
            if is_number_at(&v, da, db - 1) {
                report.disk_used_pct = Some(string_of(&v, da, db - 1));
            }
        }
    }
}

/// How a TCP connection attempt to a host ended.
#[derive(Debug)]
pub enum TcpOutcome {
    /// Connected after `latency_ms` milliseconds.
    Connected { latency_ms: u64 },
    /// The connection failed with this message.
    Failed { message: String },
    /// No answer within the time limit.
    TimedOut,
}

/// The report of a reachability check of host `host_id` made at
/// `timestamp` that ended with `outcome`.
pub fn tcp_report(host_id: String, timestamp: u64, outcome: TcpOutcome) -> (r: HealthReport)
    ensures
        r.host_id == host_id,
        r.timestamp == timestamp,
        r.reachable == (outcome is Connected),
        r.latency_ms == (match outcome {
            TcpOutcome::Connected { latency_ms } => Some(latency_ms),
            _ => None,
        }),
        !r.ssh_ok,
        r.uptime is None,
        r.load_avg is None,
        r.mem_figures is None,
        r.disk_used_pct is None,
        opt_view(r.error) == (match outcome {
            TcpOutcome::Connected { .. } => None,
            TcpOutcome::Failed { message } => Some("connect failed: "@ + message@),
            TcpOutcome::TimedOut => Some("connect timed out"@),
        }),
{
    let mut report = HealthReport {
        host_id,
        timestamp,
        reachable: false,
        latency_ms: None,
        ssh_ok: false,
        uptime: None,
        load_avg: None,
        mem_figures: None,
        disk_used_pct: None,
        error: None,
    };
    match outcome {
        TcpOutcome::Connected { latency_ms } => {
            report.reachable = true;
            report.latency_ms = Some(latency_ms);
        },
        TcpOutcome::Failed { message } => {
            report.error = Some(prefixed("connect failed: ", message.as_str()));
        },
        TcpOutcome::TimedOut => {
            report.error = Some("connect timed out".to_owned());
        },
    }
    report
}

/// Folds the outcome of the metrics probe into `report`: its output is
/// parsed and `ssh_ok` set, or its error is recorded.
pub fn apply_probe(report: &mut HealthReport, result: Result<String, CoreError>)
    ensures
        final(report).host_id == old(report).host_id,
        final(report).timestamp == old(report).timestamp,
        final(report).reachable == old(report).reachable,
        final(report).latency_ms == old(report).latency_ms,
        match result {
            Ok(out) => {
                &&& final(report).ssh_ok
                &&& final(report).error == old(report).error
                &&& opt_view(final(report).uptime) == (match probe_uptime(out@) {
                    Some(u) => Some(u),
                    None => opt_view(old(report).uptime),
                })
                &&& opt_view(final(report).load_avg) == (match probe_load(out@) {
                    Some(l) => Some(l),
                    None => opt_view(old(report).load_avg),
                })
                &&& opt_figures_view(final(report).mem_figures) == (match probe_mem(out@) {
                    Some(m) => Some(m),
                    None => opt_figures_view(old(report).mem_figures),
                })
                &&& opt_view(final(report).disk_used_pct) == (match probe_disk(out@) {
                    Some(d) => Some(d),
                    None => opt_view(old(report).disk_used_pct),
                })
            },
            Err(e) => {
                &&& final(report).ssh_ok == old(report).ssh_ok
                &&& opt_view(final(report).error) == Some("probe failed: "@ + error_message(e))
                &&& final(report).uptime == old(report).uptime
                &&& final(report).load_avg == old(report).load_avg
                &&& final(report).mem_figures == old(report).mem_figures
                &&& final(report).disk_used_pct == old(report).disk_used_pct
            },
        },
{
    match result {
        Ok(out) => {
            report.ssh_ok = true;
            parse_probe(out.as_str(), report);
        },
        Err(e) => {
            let m = e.message();
            report.error = Some(prefixed("probe failed: ", m.as_str()));
        },
    }
}

} // verus!
