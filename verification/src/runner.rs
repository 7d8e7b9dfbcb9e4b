//! The execution engine: building the command line for one batch (directly or
//! under the external record-and-replay tool), evaluating a finished batch's
//! captured output, and driving the binary-by-iteration loop that feeds the
//! aggregated failure reports.
//!
//! Spawning processes, moving directories and printing live outside the
//! library; every decision they carry out is made and proved here.
use vstd::prelude::*;
use vstd::string::StringExecFns;

use crate::args::RrOptions;
use crate::args::TestOptions;
use crate::parser::failure_pairs;
use crate::parser::parse_test_output;
use crate::parser::spec_parse;
use crate::report::contains_name;
use crate::report::event_of;
use crate::report::opt_view;
use crate::report::spec_register;
use crate::report::spec_register_batch;
use crate::report::Failure;
use crate::report::ReportModel;
pub use crate::report::Reports;
use crate::text::dec_str;
use crate::text::dec_string;

verus! {

/// Why a run had to stop.
#[derive(Debug)]
pub enum RunError {
    /// The spawned process exited with failure and no failure blocks were
    /// parsed from its output: the batch could not be evaluated (a crash or a
    /// misconfiguration, not a test failure). Carries the captured output.
    Execution(String),
    /// The binary's path ends without a final component, so no recording
    /// destination can be derived from it.
    InvalidRecordingDest,
}

/// What one finished batch produced: the failures parsed from its output and,
/// for a recorded run, the path of the ephemeral recording directory.
#[derive(Debug)]
pub struct Report {
    pub failures: Vec<Failure>,
    pub recording: Option<String>,
}

/// A pending promotion: create `dir`, then move the ephemeral recording at
/// `src` to `dst`.
#[derive(Debug)]
pub struct RenameOp {
    pub dir: String,
    pub src: String,
    pub dst: String,
}

/// Relies on `num_cpus::get`, which is documented to always return at least
/// one.
#[verifier::external_body]
fn cpu_count() -> (n: usize)
    ensures
        1 <= n,
{
    num_cpus::get()
}

/// The test-thread count forwarded to a spawned process: the configured hint,
/// or the host's CPU count when none was given.
pub fn effective_jobs(jobs: &Option<usize>) -> (j: usize)
    ensures
        match jobs {
            Some(n) => j == n,
            None => 1 <= j,
        },
{
    match jobs {
        Some(n) => *n,
        None => cpu_count(),
    }
}

/// The views of a vector of strings.
pub open spec fn strs_view(v: Seq<String>) -> Seq<Seq<char>> {
    v.map_values(|s: String| s@)
}

/// The argument vector of a direct batch: the binary itself, handed the
/// test-thread hint.
pub open spec fn test_argv(bin: Seq<char>, jobs: int) -> Seq<Seq<char>> {
    seq![bin, "--test-threads"@, dec_str(jobs)]
}

/// The recording directory one recorded batch writes, under the batch's
/// scratch directory.
pub open spec fn record_dest(scratch: Seq<char>, iter: int) -> Seq<char> {
    scratch + seq!['/'] + "record_iter_"@ + dec_str(iter)
}

/// The argument vector of a recorded batch: the recording tool wrapping the
/// same binary invocation.
pub open spec fn rr_argv(bin: Seq<char>, chaos: bool, dest: Seq<char>, jobs: int) -> Seq<
    Seq<char>,
> {
    (if chaos {
        seq!["rr"@, "record"@, "--chaos"@]
    } else {
        seq!["rr"@, "record"@]
    }) + seq!["-o"@, dest, bin, "--test-threads"@, dec_str(jobs)]
}

/// Evaluates one finished batch. A process that exits with failure while its
/// output yields no parsed failure blocks cannot be evaluated: that is an
/// execution error, fatal to the run. Otherwise the parsed failures are the
/// batch's result and the process's own exit status is ignored (a test
/// runner's non-zero exit on failing tests is expected).
pub fn evaluate_batch(output: &str, exit_success: bool, recording: Option<String>) -> (r: Result<
    Report,
    RunError,
>)
    ensures
        match r {
            Ok(rep) => (exit_success || spec_parse(output@).len() > 0) && failure_pairs(
                rep.failures@,
            ) == spec_parse(output@) && opt_view(rep.recording) == opt_view(recording),
            Err(e) => !exit_success && spec_parse(output@).len() == 0 && (e matches
            RunError::Execution(msg) && msg@ == output@),
        },
{
    let failures = parse_test_output(output);
    if !exit_success && failures.len() == 0 {
        proof {
            assert(failure_pairs(failures@).len() == 0);
        }
        return Err(RunError::Execution(String::from_str(output)));
    }
    Ok(Report { failures, recording })
}

/// One directly-run batch strategy for one binary.
pub struct TestTask<'a> {
    pub bin: String,
    pub iter: usize,
    pub test_opts: &'a TestOptions,
}

impl<'a> TestTask<'a> {
    pub fn new(bin: &str, test_opts: &'a TestOptions) -> (r: Self)
        ensures
            r.bin@ == bin@,
            r.iter == 0,
            r.test_opts == test_opts,
    {
        TestTask { bin: String::from_str(bin), iter: 0, test_opts }
    }

    /// Starts the next batch: counts the iteration up.
    pub fn advance(&mut self)
        requires
            old(self).iter < usize::MAX,
        ensures
            final(self).iter == old(self).iter + 1,
            final(self).bin == old(self).bin,
            final(self).test_opts == old(self).test_opts,
    {
        self.iter = self.iter + 1;
    }

    /// The command line of one direct batch.
    pub fn cmd(&self) -> (argv: Vec<String>)
        ensures
            match self.test_opts.jobs {
                Some(n) => strs_view(argv@) == test_argv(self.bin@, n as int),
                None => exists|j: int|
                    1 <= j && strs_view(argv@) == test_argv(self.bin@, j),
            },
    {
        let j = effective_jobs(&self.test_opts.jobs);
        let mut argv: Vec<String> = Vec::new();
        argv.push(self.bin.clone());
        argv.push(String::from_str("--test-threads"));
        argv.push(dec_string(j as u128));
        proof {
            assert(strs_view(argv@) =~= test_argv(self.bin@, j as int));
        }
        argv
    }

    /// Evaluates the batch's captured output and exit status; a direct batch
    /// never carries a recording.
    pub fn conclude(&self, output: &str, exit_success: bool) -> (r: Result<Report, RunError>)
        ensures
            match r {
                Ok(rep) => (exit_success || spec_parse(output@).len() > 0) && failure_pairs(
                    rep.failures@,
                ) == spec_parse(output@) && rep.recording is None,
                Err(e) => !exit_success && spec_parse(output@).len() == 0 && (e matches
                RunError::Execution(msg) && msg@ == output@),
            },
    {
        evaluate_batch(output, exit_success, None)
    }
}

/// One recorded batch strategy for one binary: the same invocation, wrapped
/// in the external record-and-replay tool.
pub struct RrTask<'a> {
    pub bin: String,
    pub opts: &'a RrOptions,
    pub test_opts: &'a TestOptions,
    pub iter: usize,
}

impl<'a> RrTask<'a> {
    pub fn new(bin: &str, opts: &'a RrOptions, test_opts: &'a TestOptions) -> (r: Self)
        ensures
            r.bin@ == bin@,
            r.iter == 0,
            r.opts == opts,
            r.test_opts == test_opts,
    {
        RrTask { bin: String::from_str(bin), opts, iter: 0, test_opts }
    }

    /// Starts the next batch: counts the iteration up.
    pub fn advance(&mut self)
        requires
            old(self).iter < usize::MAX,
        ensures
            final(self).iter == old(self).iter + 1,
            final(self).bin == old(self).bin,
            final(self).opts == old(self).opts,
            final(self).test_opts == old(self).test_opts,
    {
        self.iter = self.iter + 1;
    }

    /// The command line of one recorded batch, writing its recording under
    /// the given scratch directory.
    pub fn cmd(&self, record_path: &str) -> (argv: Vec<String>)
        ensures
            match self.test_opts.jobs {
                Some(n) => strs_view(argv@) == rr_argv(
                    self.bin@,
                    self.opts.chaos,
                    record_dest(record_path@, self.iter as int),
                    n as int,
                ),
                None => exists|j: int|
                    1 <= j && strs_view(argv@) == rr_argv(
                        self.bin@,
                        self.opts.chaos,
                        record_dest(record_path@, self.iter as int),
                        j,
                    ),
            },
    {
        let j = effective_jobs(&self.test_opts.jobs);
        let mut argv: Vec<String> = Vec::new();
        argv.push(String::from_str("rr"));
        argv.push(String::from_str("record"));
        if self.opts.chaos {
            argv.push(String::from_str("--chaos"));
        }
        argv.push(String::from_str("-o"));
        let mut dest = String::from_str(record_path);
        dest.append("/");
        dest.append("record_iter_");
        let iter_digits = dec_string(self.iter as u128);
        dest.append(iter_digits.as_str());
        proof {
            reveal_strlit("/");
            assert("/"@ =~= seq!['/']);
            assert(dest@ == record_dest(record_path@, self.iter as int));
        }
        argv.push(dest);
        argv.push(self.bin.clone());
        argv.push(String::from_str("--test-threads"));
        argv.push(dec_string(j as u128));
        proof {
            assert(strs_view(argv@) =~= rr_argv(
                self.bin@,
                self.opts.chaos,
                record_dest(record_path@, self.iter as int),
                j as int,
            ));
        }
        argv
    }

    /// Evaluates the batch's captured output and exit status; the batch's
    /// ephemeral recording directory rides along in the result.
    pub fn conclude(&self, output: &str, exit_success: bool, recording: String) -> (r: Result<
        Report,
        RunError,
    >)
        ensures
            match r {
                Ok(rep) => (exit_success || spec_parse(output@).len() > 0) && failure_pairs(
                    rep.failures@,
                ) == spec_parse(output@) && (rep.recording matches Some(p) && p@ == recording@),
                Err(e) => !exit_success && spec_parse(output@).len() == 0 && (e matches
                RunError::Execution(msg) && msg@ == output@),
            },
    {
        evaluate_batch(output, exit_success, Some(recording))
    }
}

/// The final path component of a path written with `/` separators: what
/// follows the last separator. Empty when the path is empty or ends in a
/// separator.
pub open spec fn last_comp(p: Seq<char>) -> Seq<char>
    decreases p.len(),
{
    if p.len() == 0 {
        Seq::empty()
    } else if p[p.len() - 1] == '/' {
        Seq::empty()
    } else {
        last_comp(p.drop_last()) + seq![p[p.len() - 1]]
    }
}

proof fn lemma_last_comp(p: Seq<char>, pos: int)
    requires
        0 <= pos <= p.len(),
        forall|k: int| pos <= k < p.len() ==> p[k] != '/',
        pos > 0 ==> p[pos - 1] == '/',
    ensures
        last_comp(p) == p.subrange(pos, p.len() as int),
    decreases p.len(),
{
    if p.len() == pos {
        if pos == 0 {
            assert(last_comp(p) =~= p.subrange(0, 0));
        } else {
            assert(p[p.len() - 1] == '/');
            assert(last_comp(p) =~= p.subrange(pos, p.len() as int));
        }
    } else {
        assert(p[p.len() - 1] != '/');
        let q = p.drop_last();
        assert(forall|k: int| pos <= k < q.len() ==> q[k] == p[k] && p[k] != '/');
        if pos > 0 {
            assert(q[pos - 1] == p[pos - 1]);
        }
        lemma_last_comp(q, pos);
        assert(last_comp(p) == q.subrange(pos, q.len() as int) + seq![p[p.len() - 1]]);
        assert(q.subrange(pos, q.len() as int) + seq![p[p.len() - 1]] =~= p.subrange(
            pos,
            p.len() as int,
        ));
    }
}

/// Extracts the final path component of a `/`-separated path.
pub fn file_name(p: &str) -> (r: String)
    ensures
        r@ == last_comp(p@),
{
    let chars = crate::text::str_chars(p);
    let n = chars.len();
    let mut pos: usize = n;
    while pos > 0 && chars[pos - 1] != '/'
        invariant
            0 <= pos <= n,
            n == chars@.len(),
            chars@ == p@,
            forall|k: int| pos <= k < n ==> chars@[k] != '/',
        decreases pos,
    {
        pos = pos - 1;
    }
    proof {
        lemma_last_comp(p@, pos as int);
    }
    let tail = crate::text::subvec_chars(&chars, pos, n);
    crate::text::chars_to_string(&tail)
}

/// The directory under the recording root that holds one binary's promoted
/// recordings.
pub open spec fn recordings_dir(root: Seq<char>, bin: Seq<char>) -> Seq<char> {
    root + seq!['/'] + last_comp(bin)
}

/// The destination of the promoted recording of one batch.
pub open spec fn recording_dst(root: Seq<char>, bin: Seq<char>, iter: int) -> Seq<char> {
    recordings_dir(root, bin) + seq!['/'] + "record_iter_"@ + dec_str(iter)
}

fn vec_string_clone_at(v: &Vec<String>, i: usize) -> (r: String)
    requires
        i < v@.len(),
    ensures
        r == v@[i as int],
{
    v[i].clone()
}

/// The orchestrator: walks the binaries in order and, for each, runs the
/// configured number of iterations, feeding every batch's failures into the
/// aggregated reports and deciding which ephemeral recording, if any, to
/// promote. One batch is in flight at a time, by design: concurrent
/// invocations would perturb the timing a flaky test depends on.
pub struct Runner<'a> {
    pub bins: Vec<String>,
    pub rr: &'a RrOptions,
    pub times: usize,
    pub test_opts: &'a TestOptions,
    pub bin_idx: usize,
    pub iter_idx: usize,
    pub reports: Reports,
    pub cancelled: bool,
}

impl<'a> Runner<'a> {
    pub open spec fn spec_times(self) -> nat {
        self.times as nat
    }

    pub open spec fn spec_test_opts(self) -> TestOptions {
        *self.test_opts
    }

    pub open spec fn spec_bin_idx(self) -> nat {
        self.bin_idx as nat
    }

    pub open spec fn spec_iter_idx(self) -> nat {
        self.iter_idx as nat
    }

    pub open spec fn spec_cancelled(self) -> bool {
        self.cancelled
    }

    pub open spec fn spec_reports(self) -> Reports {
        self.reports
    }

    /// The aggregated entries so far.
    pub open spec fn reports_model(self) -> Seq<ReportModel> {
        self.spec_reports().model()
    }

    pub open spec fn wf(self) -> bool {
        &&& self.spec_bin_idx() <= self.bins@.len()
        &&& (self.spec_iter_idx() < self.spec_times() || self.spec_iter_idx() == 0)
        &&& self.spec_reports().wf()
        &&& self.spec_reports().spec_total_iters() == self.spec_times()
    }

    /// No further batch will be scheduled: every binary is finished, the run
    /// was cancelled, or no iterations were asked for.
    pub open spec fn spec_done(self) -> bool {
        self.spec_cancelled() || self.spec_bin_idx() >= self.bins@.len() || self.spec_times() == 0
    }

    pub fn new(
        bins: Vec<String>,
        rr: &'a RrOptions,
        times: usize,
        test_opts: &'a TestOptions,
    ) -> (r: Self)
        ensures
            r.wf(),
            r.bins == bins,
            r.rr == rr,
            r.spec_times() == times as nat,
            r.spec_test_opts() == *test_opts,
            r.spec_bin_idx() == 0,
            r.spec_iter_idx() == 0,
            !r.spec_cancelled(),
            r.reports_model() == Seq::<ReportModel>::empty(),
    {
        Runner {
            bins,
            rr,
            times,
            test_opts,
            bin_idx: 0,
            iter_idx: 0,
            reports: Reports::new(times),
            cancelled: false,
        }
    }

    pub fn times(&self) -> (n: usize)
        ensures
            n as nat == self.spec_times(),
    {
        self.times
    }

    /// Stops scheduling: no further iteration of the current binary nor any
    /// later binary will be offered, and whatever has been aggregated so far
    /// stands, ready to be rendered. Cancellation is graceful, unlike an
    /// execution error.
    pub fn cancel(&mut self)
        requires
            old(self).wf(),
        ensures
            final(self).wf(),
            final(self).spec_cancelled(),
            final(self).spec_done(),
            final(self).reports_model() == old(self).reports_model(),
            final(self).spec_reports() == old(self).spec_reports(),
            final(self).bins == old(self).bins,
            final(self).spec_times() == old(self).spec_times(),
    {
        self.cancelled = true;
    }

    /// What to run next: the current binary's path, the current iteration
    /// index, and whether to record — or nothing, when the run is done.
    pub fn next_batch(&self) -> (r: Option<(String, usize, bool)>)
        requires
            self.wf(),
        ensures
            match r {
                Some(b) => !self.spec_done() && b.0@ == self.bins@[self.spec_bin_idx() as int]@
                    && b.1 as nat == self.spec_iter_idx() && b.2 == self.rr.record,
                None => self.spec_done(),
            },
    {
        if self.cancelled || self.times == 0 || self.bin_idx >= self.bins.len() {
            return None;
        }
        let bin = vec_string_clone_at(&self.bins, self.bin_idx);
        Some((bin, self.iter_idx, self.rr.record))
    }

    /// Whether a failing test of this name has already been seen.
    pub fn has_report(&self, name: &str) -> (r: bool)
        ensures
            r == contains_name(self.reports_model(), name@),
    {
        self.reports.has_report(name)
    }

    /// Derives the promotion target of one batch's recording: the directory
    /// under the recording root named after the binary, and the destination
    /// named after the batch's iteration. A binary path without a final
    /// component admits no destination.
    pub fn recordings_path(&self, bin: &str, iter: usize) -> (r: Result<
        (String, String),
        RunError,
    >)
        ensures
            match r {
                Ok(p) => last_comp(bin@).len() > 0 && p.0@ == recordings_dir(
                    self.rr.record_out_dir@,
                    bin@,
                ) && p.1@ == recording_dst(self.rr.record_out_dir@, bin@, iter as int),
                Err(e) => e is InvalidRecordingDest && last_comp(bin@).len() == 0,
            },
    {
        let name = file_name(bin);
        if name.as_str().is_empty() {
            return Err(RunError::InvalidRecordingDest);
        }
        let mut dir = String::from_str(self.rr.record_out_dir.as_str());
        dir.append("/");
        dir.append(name.as_str());
        let mut dst = dir.clone();
        dst.append("/");
        dst.append("record_iter_");
        let digits = dec_string(iter as u128);
        dst.append(digits.as_str());
        proof {
            reveal_strlit("/");
            assert("/"@ =~= seq!['/']);
            assert(dir@ == recordings_dir(self.rr.record_out_dir@, bin@));
            assert(dst@ == recording_dst(self.rr.record_out_dir@, bin@, iter as int));
        }
        Ok((dir, dst))
    }

    /// Consumes one finished batch: registers each of its failures in order
    /// against the current binary, lets the first newly-seen name claim the
    /// batch's recording (if one rode along), and moves on to the next
    /// iteration, or the next binary once this one's iterations are done.
    ///
    /// The returned operation, if any, is the promotion the caller must
    /// perform: create the directory, then move the ephemeral recording to
    /// its persistent destination. Without a recording on offer no operation
    /// is ever returned, so a run that never records never touches the
    /// recording root.
    pub fn record_batch(&mut self, rep: Report) -> (r: Result<Option<RenameOp>, RunError>)
        requires
            old(self).wf(),
            !old(self).spec_done(),
        ensures
            final(self).wf(),
            final(self).bins == old(self).bins,
            final(self).rr == old(self).rr,
            final(self).spec_times() == old(self).spec_times(),
            final(self).spec_test_opts() == old(self).spec_test_opts(),
            match r {
                Ok(op) => ({
                    let bin = old(self).bins@[old(self).spec_bin_idx() as int]@;
                    let dst0 = if rep.recording is Some {
                        Some(
                            recording_dst(
                                old(self).rr.record_out_dir@,
                                bin,
                                old(self).spec_iter_idx() as int,
                            ),
                        )
                    } else {
                        None::<Seq<char>>
                    };
                    let res = spec_register_batch(
                        old(self).reports_model(),
                        failure_pairs(rep.failures@),
                        bin,
                        dst0,
                    );
                    &&& final(self).reports_model() == res.0
                    &&& match op {
                        Some(o) => res.1 && (rep.recording matches Some(srcp) && o.src@ == srcp@)
                            && o.dir@ == recordings_dir(old(self).rr.record_out_dir@, bin)
                            && o.dst@ == recording_dst(
                            old(self).rr.record_out_dir@,
                            bin,
                            old(self).spec_iter_idx() as int,
                        ),
                        None => !res.1,
                    }
                    &&& final(self).spec_cancelled() == old(self).spec_cancelled()
                    &&& (if old(self).spec_iter_idx() + 1 < old(self).spec_times() {
                        final(self).spec_bin_idx() == old(self).spec_bin_idx()
                            && final(self).spec_iter_idx() == old(self).spec_iter_idx() + 1
                    } else {
                        final(self).spec_bin_idx() == old(self).spec_bin_idx() + 1
                            && final(self).spec_iter_idx() == 0
                    })
                }),
                Err(e) => e is InvalidRecordingDest && rep.recording is Some && last_comp(
                    old(self).bins@[old(self).spec_bin_idx() as int]@,
                ).len() == 0 && *final(self) == *old(self),
            },
    {
        let ghost old_model = self.reports.model();
        let ghost bin_view = self.bins@[self.bin_idx as int]@;
        let bin = vec_string_clone_at(&self.bins, self.bin_idx);
        let mut dst_pair: Option<(String, String)> = None;
        if rep.recording.is_some() {
            match self.recordings_path(bin.as_str(), self.iter_idx) {
                Ok(p) => {
                    dst_pair = Some(p);
                },
                Err(e) => {
                    return Err(e);
                },
            }
        }
        let ghost dst0 = if rep.recording is Some {
            Some(recording_dst(self.rr.record_out_dir@, bin_view, self.iter_idx as int))
        } else {
            None::<Seq<char>>
        };
        let Report { failures, recording } = rep;
        let mut fs = failures;
        let ghost all_pairs = failure_pairs(fs@);
        let ghost target = spec_register_batch(old_model, all_pairs, bin_view, dst0);
        let mut claimed_any = false;
        while fs.len() > 0
            invariant
                self.bins == old(self).bins,
                self.rr == old(self).rr,
                self.times == old(self).times,
                self.test_opts == old(self).test_opts,
                self.bin_idx == old(self).bin_idx,
                self.iter_idx == old(self).iter_idx,
                self.cancelled == old(self).cancelled,
                self.reports.wf(),
                self.reports.spec_total_iters() == old(self).spec_times(),
                bin@ == bin_view,
                dst_pair is Some <==> dst0 is Some,
                (dst_pair matches Some(p) ==> p.1@ == dst0->0),
                claimed_any ==> target.1,
                claimed_any ==> dst0 is Some,
                ({
                    let rem = if claimed_any {
                        None::<Seq<char>>
                    } else {
                        dst0
                    };
                    spec_register_batch(self.reports.model(), failure_pairs(fs@), bin_view, rem)
                        == (target.0, (target.1 && !claimed_any))
                }),
            decreases fs@.len(),
        {
            let ghost pre_model = self.reports.model();
            let ghost pre_pairs = failure_pairs(fs@);
            let ghost rem = if claimed_any {
                None::<Seq<char>>
            } else {
                dst0
            };
            let ghost pre_fs = fs@;
            let f = fs.remove(0);
            proof {
                assert(fs@ =~= pre_fs.skip(1));
                assert(failure_pairs(fs@) =~= pre_pairs.skip(1));
                assert(pre_pairs[0] == (f.name@, f.message@));
            }
            let seen = self.reports.has_report(f.name.as_str());
            let offer = !claimed_any && dst_pair.is_some() && !seen;
            let ghost claim_now = rem is Some && !contains_name(pre_model, f.name@);
            let dst_arg: Option<String> = if offer {
                match &dst_pair {
                    Some(p) => Some(p.1.clone()),
                    None => None,
                }
            } else {
                None
            };
            proof {
                assert(opt_view(dst_arg) == (if claim_now {
                    rem
                } else {
                    None::<Seq<char>>
                }));
            }
            let cl = self.reports.register(f, bin.as_str(), dst_arg);
            proof {
                assert(cl == claim_now);
                let e = event_of(
                    pre_pairs[0].0,
                    pre_pairs[0].1,
                    bin_view,
                    if claim_now {
                        rem
                    } else {
                        None::<Seq<char>>
                    },
                );
                assert(self.reports.model() == spec_register(pre_model, e));
                assert(spec_register_batch(pre_model, pre_pairs, bin_view, rem) == (
                    spec_register_batch(
                        self.reports.model(),
                        pre_pairs.skip(1),
                        bin_view,
                        if claim_now {
                            None::<Seq<char>>
                        } else {
                            rem
                        },
                    ).0,
                    claim_now || spec_register_batch(
                        self.reports.model(),
                        pre_pairs.skip(1),
                        bin_view,
                        if claim_now {
                            None::<Seq<char>>
                        } else {
                            rem
                        },
                    ).1,
                ));
                if claim_now {
                    crate::report::lemma_batch_no_dst(
                        self.reports.model(),
                        pre_pairs.skip(1),
                        bin_view,
                    );
                }
            }
            if cl {
                claimed_any = true;
            }
        }
        proof {
            assert(failure_pairs(fs@).len() == 0);
            assert(self.reports.model() == target.0);
            assert(claimed_any == target.1);
        }
        let op: Option<RenameOp> = if claimed_any {
            match (dst_pair, recording) {
                (Some(p), Some(src)) => Some(RenameOp { dir: p.0, src, dst: p.1 }),
                _ => None,
            }
        } else {
            None
        };
        let nbins = self.bins.len();
        proof {
            assert(self.bin_idx < nbins);
        }
        self.iter_idx = self.iter_idx + 1;
        if self.iter_idx == self.times {
            self.iter_idx = 0;
            self.bin_idx = self.bin_idx + 1;
        }
        Ok(op)
    }

    /// Hands the aggregated reports over for rendering.
    pub fn into_reports(self) -> (r: Reports)
        ensures
            r == self.spec_reports(),
    {
        self.reports
    }
}

} // verus!
