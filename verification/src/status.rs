//! The supervisor's status report: one record per managed process, merged
//! across the base and discovered cohorts and written to a well-known file.
//! The file I/O lives with the supervisor's glue; this module computes the
//! merged report.

use vstd::multiset::Multiset;
use vstd::prelude::*;

verus! {

/// Path of the orchestrator status file.
pub const STATUS_FILE_PATH: &'static str = "/tmp/commonplace-orchestrator-status.json";

/// Information about a single managed process.
#[derive(Debug)]
pub struct ProcessStatus {
    /// Process name
    pub name: String,
    /// Process ID (if running)
    pub pid: Option<u32>,
    /// Working directory
    pub cwd: Option<String>,
    /// Current state
    pub state: String,
    /// Document path (for discovered processes)
    pub document_path: Option<String>,
    /// Source path (for discovered processes: which document declared it)
    pub source_path: Option<String>,
}

/// Full orchestrator status.
#[derive(Debug)]
pub struct OrchestratorStatus {
    /// Orchestrator PID
    pub orchestrator_pid: u32,
    /// When the orchestrator started (Unix timestamp)
    pub started_at: u64,
    /// List of managed processes
    pub processes: Vec<ProcessStatus>,
}

/// Lexicographic order on character sequences, by scalar value; what str's
/// own ordering gives on the underlying text.
pub open spec fn spec_str_le(a: Seq<char>, b: Seq<char>) -> bool
    decreases a.len(),
{
    if a.len() == 0 {
        true
    } else if b.len() == 0 {
        false
    } else if a[0] != b[0] {
        a[0] < b[0]
    } else {
        spec_str_le(a.drop_first(), b.drop_first())
    }
}

/// The order is total.
pub proof fn lemma_str_le_total(a: Seq<char>, b: Seq<char>)
    ensures
        spec_str_le(a, b) || spec_str_le(b, a),
    decreases a.len(),
{
    if a.len() > 0 && b.len() > 0 && a[0] == b[0] {
        lemma_str_le_total(a.drop_first(), b.drop_first());
    }
}

/// The order is transitive.
pub proof fn lemma_str_le_trans(a: Seq<char>, b: Seq<char>, c: Seq<char>)
    requires
        spec_str_le(a, b),
        spec_str_le(b, c),
    ensures
        spec_str_le(a, c),
    decreases a.len(),
{
    if a.len() > 0 && b.len() > 0 && c.len() > 0 && a[0] == b[0] && b[0] == c[0] {
        lemma_str_le_trans(a.drop_first(), b.drop_first(), c.drop_first());
    }
}

/// Relies on str's PartialOrd: strings order lexicographically by their
/// text, the order `spec_str_le` states.
#[verifier::external_body]
fn str_le(a: &str, b: &str) -> (r: bool)
    ensures
        r == spec_str_le(a@, b@),
{
    a <= b
}

/// Records sorted by process name.
pub open spec fn names_sorted(s: Seq<ProcessStatus>) -> bool {
    forall|i: int, j: int| 0 <= i < j < s.len() ==> spec_str_le(s[i].name@, s[j].name@)
}

fn clone_opt_string(o: &Option<String>) -> (r: Option<String>)
    ensures
        r == *o,
{
    match o {
        Some(s) => Some(s.clone()),
        None => None,
    }
}

/// Copy one status record.
fn clone_status(p: &ProcessStatus) -> (r: ProcessStatus)
    ensures
        r == *p,
{
    ProcessStatus {
        name: p.name.clone(),
        pid: match p.pid {
            Some(x) => Some(x),
            None => None,
        },
        cwd: clone_opt_string(&p.cwd),
        state: p.state.clone(),
        document_path: clone_opt_string(&p.document_path),
        source_path: clone_opt_string(&p.source_path),
    }
}

/// Insert a record into a name-sorted list, keeping it sorted.
fn insert_sorted(out: &mut Vec<ProcessStatus>, p: ProcessStatus)
    requires
        names_sorted(old(out)@),
    ensures
        names_sorted(final(out)@),
        final(out)@.to_multiset() == old(out)@.to_multiset().insert(p),
{
    broadcast use vstd::prelude::Seq::to_multiset_ensures;

    let ghost p0 = p;
    let mut k: usize = 0;
    loop
        invariant_except_break
            k <= out@.len(),
            out@ == old(out)@,
            p == p0,
            forall|i: int| 0 <= i < k ==> spec_str_le(out@[i].name@, p.name@),
        ensures
            k <= out@.len(),
            out@ == old(out)@,
            p == p0,
            forall|i: int| 0 <= i < k ==> spec_str_le(out@[i].name@, p.name@),
            k < out@.len() ==> spec_str_le(p0.name@, out@[k as int].name@),
        decreases out@.len() - k,
    {
        if k >= out.len() {
            break;
        }
        if !str_le(out[k].name.as_str(), p.name.as_str()) {
            proof {
                lemma_str_le_total(out@[k as int].name@, p.name@);
            }
            break;
        }
        k = k + 1;
    }
    out.insert(k, p);
    proof {
        let s = old(out)@;
        let t = final(out)@;
        assert(t =~= s.take(k as int).push(p0) + s.skip(k as int));
        assert forall|i: int, j: int| 0 <= i < j < t.len() implies spec_str_le(
            t[i].name@,
            t[j].name@,
        ) by {
            let gi: int = if i < k {
                i
            } else {
                i - 1
            };
            let gj: int = if j < k {
                j
            } else {
                j - 1
            };
            if i == k && j > k {
                // p sits at k; everything after came from position k onward
                assert(t[j] == s[gj]);
                assert(spec_str_le(p0.name@, s[k as int].name@));
                if k < gj {
                    assert(spec_str_le(s[k as int].name@, s[gj].name@));
                    lemma_str_le_trans(p0.name@, s[k as int].name@, s[gj].name@);
                }
            } else if j == k {
                assert(t[i] == s[i]);
            } else if i < k && j > k {
                assert(t[i] == s[i] && t[j] == s[gj]);
            } else if i > k && j > k {
                assert(t[i] == s[gi] && t[j] == s[gj]);
            } else {
                assert(t[i] == s[i] && t[j] == s[j]);
            }
        }
        // multiset: insertion at k is a push reordered
        s.take(k as int).to_multiset_ensures();
        vstd::seq_lib::lemma_multiset_commutative(s.take(k as int).push(p0), s.skip(k as int));
        vstd::seq_lib::lemma_multiset_commutative(s.take(k as int), s.skip(k as int));
        assert(s.take(k as int).push(p0).to_multiset() =~= s.take(k as int).to_multiset().insert(
            p0,
        ));
        assert(s =~= s.take(k as int) + s.skip(k as int));
        assert(t.to_multiset() =~= s.to_multiset().insert(p0));
    }
}

impl OrchestratorStatus {
    /// Get the status file path.
    pub fn path() -> (r: String)
        ensures
            r@ == STATUS_FILE_PATH@,
    {
        String::from_str(STATUS_FILE_PATH)
    }

    /// Merge this status over an existing report: replace the records of
    /// this source (base records carry no source path, discovered records
    /// carry one), keep the other cohort's, and sort by name. The caller
    /// reads the existing report and persists the result.
    pub fn merge_and_write(&self, existing: Option<OrchestratorStatus>, is_base_process: bool)
        -> (r: OrchestratorStatus)
        ensures
            r.orchestrator_pid == self.orchestrator_pid,
            r.started_at == self.started_at,
            names_sorted(r.processes@),
            r.processes@.to_multiset() == (match existing {
                Some(e) => e.processes@.filter(
                    |p: ProcessStatus|
                        if is_base_process {
                            p.source_path is Some
                        } else {
                            p.source_path is None
                        },
                ),
                None => Seq::<ProcessStatus>::empty(),
            }).to_multiset().add(self.processes@.to_multiset()),
    {
        broadcast use vstd::prelude::Seq::to_multiset_ensures;

        let ghost keep = |p: ProcessStatus|
            if is_base_process {
                p.source_path is Some
            } else {
                p.source_path is None
            };
        let mut out: Vec<ProcessStatus> = Vec::new();
        let ghost kept: Seq<ProcessStatus> = Seq::empty();
        proof {
            assert(out@.to_multiset() =~= Seq::<ProcessStatus>::empty().to_multiset());
            assert(Seq::<ProcessStatus>::empty().to_multiset() =~= kept.to_multiset());
        }
        match &existing {
            None => {},
            Some(e) => {
                proof {
                    assert(e.processes@.take(0) =~= Seq::<ProcessStatus>::empty());
                    assert(Seq::<ProcessStatus>::empty().filter(keep) =~= Seq::<
                        ProcessStatus,
                    >::empty());
                }
                let mut k: usize = 0;
                while k < e.processes.len()
                    invariant
                        k <= e.processes@.len(),
                        names_sorted(out@),
                        out@.to_multiset() == e.processes@.take(k as int).filter(
                            keep,
                        ).to_multiset(),
                        keep == (|p: ProcessStatus|
                            if is_base_process {
                                p.source_path is Some
                            } else {
                                p.source_path is None
                            }),
                    decreases e.processes@.len() - k,
                {
                    let ghost pre = e.processes@.take(k as int);
                    proof {
                        assert(e.processes@.take(k as int + 1) =~= pre.push(
                            e.processes@[k as int],
                        ));
                        pre.lemma_filter_push(e.processes@[k as int], keep);
                    }
                    let keep_it = if is_base_process {
                        e.processes[k].source_path.is_some()
                    } else {
                        e.processes[k].source_path.is_none()
                    };
                    let ghost x = e.processes@[k as int];
                    if keep_it {
                        insert_sorted(&mut out, clone_status(&e.processes[k]));
                        proof {
                            assert(keep(x));
                            assert(pre.push(x).filter(keep) =~= pre.filter(keep).push(x));
                            pre.filter(keep).to_multiset_ensures();
                            assert(out@.to_multiset() =~= e.processes@.take(k as int + 1).filter(
                                keep,
                            ).to_multiset());
                        }
                    } else {
                        proof {
                            assert(!keep(x));
                            assert(pre.push(x).filter(keep) =~= pre.filter(keep));
                        }
                    }
                    k = k + 1;
                }
            },
        }
        proof {
            let em = Seq::<ProcessStatus>::empty().to_multiset();
            Seq::<ProcessStatus>::empty().to_multiset_ensures();
            assert forall|a: ProcessStatus| true implies em.count(a) == 0 by {
                if em.count(a) > 0 {
                    assert(Seq::<ProcessStatus>::empty().contains(a));
                }
            }
            assert(em =~= Multiset::<ProcessStatus>::empty());
            let base = (match &existing {
                Some(e) => e.processes@.filter(keep),
                None => Seq::<ProcessStatus>::empty(),
            }).to_multiset();
            assert(self.processes@.take(0) =~= Seq::<ProcessStatus>::empty());
            assert(base.add(em) =~= base);
            match &existing {
                Some(e) => {
                    assert(e.processes@.take(e.processes@.len() as int) =~= e.processes@);
                },
                None => {
                    assert(out@ =~= Seq::<ProcessStatus>::empty());
                },
            }
        }
        let mut k: usize = 0;
        while k < self.processes.len()
            invariant
                k <= self.processes@.len(),
                names_sorted(out@),
                out@.to_multiset() == (match existing {
                    Some(e) => e.processes@.filter(keep),
                    None => Seq::<ProcessStatus>::empty(),
                }).to_multiset().add(self.processes@.take(k as int).to_multiset()),
                keep == (|p: ProcessStatus|
                    if is_base_process {
                        p.source_path is Some
                    } else {
                        p.source_path is None
                    }),
            decreases self.processes@.len() - k,
        {
            proof {
                assert(self.processes@.take(k as int + 1) =~= self.processes@.take(k as int).push(
                    self.processes@[k as int],
                ));
            }
            insert_sorted(&mut out, clone_status(&self.processes[k]));
            proof {
                let base = (match &existing {
                    Some(e) => e.processes@.filter(keep),
                    None => Seq::<ProcessStatus>::empty(),
                }).to_multiset();
                let x = self.processes@[k as int];
                let taken = self.processes@.take(k as int);
                taken.to_multiset_ensures();
                assert(taken.push(x).to_multiset() =~= taken.to_multiset().insert(x));
                assert(base.add(taken.to_multiset().insert(x)) =~= base.add(
                    taken.to_multiset(),
                ).insert(x));
            }
            k = k + 1;
        }
        proof {
            assert(self.processes@.take(self.processes@.len() as int) =~= self.processes@);
        }
        OrchestratorStatus {
            orchestrator_pid: self.orchestrator_pid,
            started_at: self.started_at,
            processes: out,
        }
    }
}

}
