//! Failure aggregation: merging the stream of per-batch failures into one
//! report entry per distinct failing test name, with occurrence counts and at
//! most one retained recording per name.
use vstd::prelude::*;
use vstd::string::StringExecFns;

verus! {

/// The view of an optional owned string.
pub open spec fn opt_view(o: Option<String>) -> Option<Seq<char>> {
    match o {
        Some(p) => Some(p@),
        None => None,
    }
}

/// A single failing test case extracted from a harness's output: the test's
/// name and the message block that followed its delimiter line.
#[derive(Debug)]
pub struct Failure {
    pub name: String,
    pub message: String,
}

impl Failure {
    pub fn new(name: String, message: String) -> (r: Failure)
        ensures
            r.name@ == name@,
            r.message@ == message@,
    {
        Failure { name, message }
    }
}

/// The report entry for one distinct failing test name.
#[derive(Debug)]
pub struct FailureReport {
    /// Batches where this test failed.
    pub occurences: usize,
    /// Name of the failed test.
    pub name: String,
    /// Path of the binary that first produced the failure.
    pub bin: String,
    /// Path of the persisted recording claimed by this test name, if any;
    /// set at creation time, at most once, and never changed afterwards.
    pub recording: Option<String>,
    /// The message of the first observed failure; later sightings only count.
    pub message: String,
}

/// The mathematical image of one report entry.
pub ghost struct ReportModel {
    pub name: Seq<char>,
    pub occ: nat,
    pub bin: Seq<char>,
    pub rec: Option<Seq<char>>,
    pub msg: Seq<char>,
}

/// One registration: a failure's name and message, the binary it came from,
/// and the recording destination offered to it (claimed only if the name is
/// new).
pub ghost struct RegisterEvent {
    pub name: Seq<char>,
    pub msg: Seq<char>,
    pub bin: Seq<char>,
    pub rec: Option<Seq<char>>,
}

/// Builds a registration event from a failure's parts.
pub open spec fn event_of(
    name: Seq<char>,
    msg: Seq<char>,
    bin: Seq<char>,
    rec: Option<Seq<char>>,
) -> RegisterEvent {
    RegisterEvent { name, msg, bin, rec }
}

impl FailureReport {
    pub open spec fn model(self) -> ReportModel {
        ReportModel {
            name: self.name@,
            occ: self.occurences as nat,
            bin: self.bin@,
            rec: match self.recording {
                Some(p) => Some(p@),
                None => None,
            },
            msg: self.message@,
        }
    }
}

pub open spec fn contains_name(s: Seq<ReportModel>, name: Seq<char>) -> bool {
    exists|i: int| 0 <= i < s.len() && (#[trigger] s[i]).name == name
}

/// One occurrence more for an entry, saturating at the machine limit.
pub open spec fn bump(m: ReportModel) -> ReportModel {
    ReportModel {
        occ: if m.occ < usize::MAX as nat {
            m.occ + 1
        } else {
            m.occ
        },
        ..m
    }
}

/// What registering one failure does to the collection: a known name has only
/// its occurrence count raised; a new name is appended with a count of one,
/// the failure's message and binary, and whatever recording destination the
/// event offered.
pub open spec fn spec_register(s: Seq<ReportModel>, e: RegisterEvent) -> Seq<ReportModel>
    decreases s.len(),
{
    if s.len() == 0 {
        seq![ReportModel { name: e.name, occ: 1, bin: e.bin, rec: e.rec, msg: e.msg }]
    } else if s[0].name == e.name {
        seq![bump(s[0])] + s.skip(1)
    } else {
        seq![s[0]] + spec_register(s.skip(1), e)
    }
}

/// A recording destination is claimed exactly when the event offers one and
/// the name has not been seen before.
pub open spec fn spec_claimed(s: Seq<ReportModel>, e: RegisterEvent) -> bool {
    e.rec is Some && !contains_name(s, e.name)
}

/// Registering one batch's failures in order, all from the same binary. A
/// single recording destination is on offer for the whole batch; the first
/// failure whose name is new claims it, and every later failure of the batch
/// is registered without one. The result also says whether anyone claimed.
///
/// One batch produces at most one recording, so when several new names appear
/// in the same batch only the first of them keeps a recording; the others are
/// reported without one. This is a deliberate choice of this library.
pub open spec fn spec_register_batch(
    s: Seq<ReportModel>,
    fs: Seq<(Seq<char>, Seq<char>)>,
    bin: Seq<char>,
    dst: Option<Seq<char>>,
) -> (Seq<ReportModel>, bool)
    decreases fs.len(),
{
    if fs.len() == 0 {
        (s, false)
    } else {
        let claim_now = dst is Some && !contains_name(s, fs[0].0);
        let e = event_of(
            fs[0].0,
            fs[0].1,
            bin,
            if claim_now {
                dst
            } else {
                None
            },
        );
        let r = spec_register_batch(
            spec_register(s, e),
            fs.skip(1),
            bin,
            if claim_now {
                None
            } else {
                dst
            },
        );
        (r.0, claim_now || r.1)
    }
}

/// The aggregated failure reports of one run: one entry per distinct failing
/// test name, in order of first sighting, plus the number of iterations the
/// run was configured for.
pub struct Reports {
    reports: Vec<FailureReport>,
    total_iters: usize,
}

impl Reports {
    /// The collection's mathematical content.
    pub closed spec fn model(self) -> Seq<ReportModel> {
        self.reports@.map_values(|r: FailureReport| r.model())
    }

    pub closed spec fn spec_total_iters(self) -> nat {
        self.total_iters as nat
    }

    /// Names are unique: one entry per distinct failing test name.
    pub open spec fn wf(self) -> bool {
        forall|i: int, j: int|
            0 <= i < j < self.model().len() ==> (#[trigger] self.model()[i]).name != (
            #[trigger] self.model()[j]).name
    }

    pub fn new(total_iters: usize) -> (r: Reports)
        ensures
            r.model() == Seq::<ReportModel>::empty(),
            r.spec_total_iters() == total_iters as nat,
            r.wf(),
    {
        let r = Reports { reports: Vec::new(), total_iters };
        proof {
            assert(r.model() =~= Seq::<ReportModel>::empty());
        }
        r
    }

    /// How many distinct failing test names the run observed.
    pub fn failed_tests(&self) -> (n: usize)
        ensures
            n == self.model().len(),
    {
        self.reports.len()
    }

    pub fn total_iters(&self) -> (n: usize)
        ensures
            n as nat == self.spec_total_iters(),
    {
        self.total_iters
    }

    /// Renders the final report: a headline with the number of distinct
    /// failing tests, then one block per entry with the test's name, its
    /// failure rate over the configured iterations, the binary, the retained
    /// recording if any, and the first failure's message.
    #[verifier::rlimit(60)]
    pub fn render(&self) -> (out: String)
        ensures
            out@ == spec_render(self.model(), self.spec_total_iters()),
    {
        let ghost hdr = "====== FOUND "@ + crate::text::dec_str(self.model().len() as int)
            + " FAILING TESTS ======\n"@;
        let mut out = String::from_str("====== FOUND ");
        let n = self.reports.len();
        let n_digits = crate::text::dec_string(n as u128);
        out.append(n_digits.as_str());
        out.append(" FAILING TESTS ======\n");
        let mut i: usize = 0;
        proof {
            assert(self.model().take(0) =~= Seq::<ReportModel>::empty());
        }
        while i < self.reports.len()
            invariant
                i <= self.reports@.len(),
                out@ == hdr + spec_render_entries(
                    self.model().take(i as int),
                    self.spec_total_iters(),
                ),
            decreases self.reports@.len() - i,
        {
            proof {
                assert(self.model()[i as int] == self.reports@[i as int].model());
            }
            let entry_text = render_entry(&self.reports[i], self.total_iters);
            out.append(entry_text.as_str());
            proof {
                lemma_render_entries_step(self.model(), self.spec_total_iters(), i as int);
                assert(out@ =~= hdr + spec_render_entries(
                    self.model().take(i as int + 1),
                    self.spec_total_iters(),
                ));
            }
            i = i + 1;
        }
        proof {
            assert(self.model().take(self.model().len() as int) =~= self.model());
        }
        out
    }

    /// The entries themselves, one per distinct failing test name, in order
    /// of first sighting.
    pub fn entries(&self) -> (v: &Vec<FailureReport>)
        ensures
            v@.map_values(|r: FailureReport| r.model()) == self.model(),
    {
        &self.reports
    }

    /// Whether a failing test of this name has been registered already.
    pub fn has_report(&self, name: &str) -> (r: bool)
        ensures
            r == contains_name(self.model(), name@),
    {
        let mut i: usize = 0;
        while i < self.reports.len()
            invariant
                i <= self.model().len(),
                forall|k: int| 0 <= k < i ==> (#[trigger] self.model()[k]).name != name@,
            decreases self.model().len() - i,
        {
            if str_eq(self.reports[i].name.as_str(), name) {
                assert(self.model()[i as int].name == name@);
                return true;
            }
            i = i + 1;
        }
        false
    }

    /// Registers one failure. On first sight of the name a new entry is
    /// created — count one, the failure's message and binary, and the offered
    /// recording destination, which is thereby claimed. On a later sighting
    /// only the occurrence count is raised; message, binary and recording
    /// keep the first sighting's values.
    pub fn register(
        &mut self,
        failure: Failure,
        bin: &str,
        recording_dst: Option<String>,
    ) -> (claimed: bool)
        requires
            old(self).wf(),
        ensures
            final(self).wf(),
            final(self).model() == spec_register(
                old(self).model(),
                event_of(failure.name@, failure.message@, bin@, opt_view(recording_dst)),
            ),
            claimed == spec_claimed(
                old(self).model(),
                event_of(failure.name@, failure.message@, bin@, opt_view(recording_dst)),
            ),
            final(self).spec_total_iters() == old(self).spec_total_iters(),
    {
        let ghost e = event_of(failure.name@, failure.message@, bin@, opt_view(recording_dst));
        let found = find_name(&self.reports, failure.name.as_str());
        if let Some(i) = found {
            proof {
                assert(self.model()[i as int] == self.reports@[i as int].model());
                assert(self.model()[i as int].name == e.name);
                assert(contains_name(self.model(), e.name));
            }
            let mut entry = self.reports.remove(i);
            if entry.occurences < usize::MAX {
                entry.occurences = entry.occurences + 1;
            }
            let ghost bumped = entry.model();
            self.reports.insert(i, entry);
            proof {
                assert(bumped == bump(old(self).model()[i as int]));
                assert forall|k: int| 0 <= k < self.model().len() implies #[trigger] self.model()[k]
                    == old(self).model().update(i as int, bumped)[k] by {
                    assert(self.model()[k] == self.reports@[k].model());
                    assert(old(self).model()[k] == old(self).reports@[k].model());
                    assert(self.reports@[k] == old(self).reports@.remove(i as int).insert(
                        i as int,
                        self.reports@[i as int],
                    )[k]);
                }
                assert(self.model() =~= old(self).model().update(i as int, bumped));
                lemma_register_at(old(self).model(), e, i as int);
                assert forall|p: int, q: int|
                    0 <= p < q < self.model().len() implies (#[trigger] self.model()[p]).name != (
                #[trigger] self.model()[q]).name by {
                    assert(self.model()[p].name == old(self).model()[p].name);
                    assert(self.model()[q].name == old(self).model()[q].name);
                }
            }
            return false;
        }
        proof {
            assert forall|k: int| 0 <= k < self.model().len() implies (#[trigger] self.model()[
                k
            ]).name != e.name by {
                assert(self.model()[k] == self.reports@[k].model());
            }
        }
        let ghost fresh = ReportModel { name: e.name, occ: 1, bin: e.bin, rec: e.rec, msg: e.msg };
        let entry = FailureReport {
            occurences: 1,
            name: failure.name,
            bin: String::from_str(bin),
            recording: recording_dst,
            message: failure.message,
        };
        let claimed = entry.recording.is_some();
        proof {
            assert(!contains_name(old(self).model(), e.name)) by {
                if contains_name(old(self).model(), e.name) {
                    let w = choose|w: int|
                        0 <= w < old(self).model().len() && (#[trigger] old(
                            self,
                        ).model()[w]).name == e.name;
                    assert(false);
                }
            }
            assert(entry.model() == fresh);
        }
        self.reports.push(entry);
        proof {
            assert forall|k: int| 0 <= k < self.model().len() implies #[trigger] self.model()[k]
                == old(self).model().push(fresh)[k] by {
                assert(self.model()[k] == self.reports@[k].model());
                if k < old(self).model().len() {
                    assert(old(self).model()[k] == old(self).reports@[k].model());
                }
            }
            assert(self.model() =~= old(self).model().push(fresh));
            lemma_register_new(old(self).model(), e);
            assert forall|p: int, q: int|
                0 <= p < q < self.model().len() implies (#[trigger] self.model()[p]).name != (
                #[trigger] self.model()[q]).name by {
                if q < old(self).model().len() {
                    assert(old(self).model()[p].name != old(self).model()[q].name);
                } else {
                    assert(self.model()[q].name == e.name);
                    assert(self.model()[p] == old(self).model()[p]);
                }
            }
        }
        claimed
    }
}

/// The percentage of batches a test failed in, written with two decimal
/// places, truncated; the fraction is dropped when it is zero. A total of
/// zero renders as zero.
pub open spec fn spec_pct(occ: nat, total: nat) -> Seq<char> {
    if total == 0 {
        seq!['0']
    } else {
        let scaled = occ * 10000 / total;
        if scaled % 100 == 0 {
            crate::text::dec_str((scaled / 100) as int)
        } else {
            crate::text::dec_str((scaled / 100) as int) + seq!['.'] + crate::text::dec_str(
                ((scaled % 100) / 10) as int,
            ) + crate::text::dec_str((scaled % 100 % 10) as int)
        }
    }
}

/// One rendered report entry: the test's name, how often it failed out of
/// how many iterations, the binary it came from, the retained recording if
/// any, and the first failure's message.
#[verifier::opaque]
pub open spec fn spec_render_entry(m: ReportModel, total: nat) -> Seq<char> {
    "test: "@ + m.name + "\n"@ + "failures: "@ + crate::text::dec_str(m.occ as int) + "/"@
        + crate::text::dec_str(total as int) + " ("@ + spec_pct(m.occ, total) + "%)\n"@ + "path: "@
        + m.bin + "\n"@ + (match m.rec {
        Some(p) => "recording available at: "@ + p + "\n"@,
        None => Seq::<char>::empty(),
    }) + "message:\n"@ + m.msg + "\n"@ + "\n------------------------------------\n"@
}

pub open spec fn spec_render_entries(s: Seq<ReportModel>, total: nat) -> Seq<char>
    decreases s.len(),
{
    if s.len() == 0 {
        Seq::empty()
    } else {
        spec_render_entry(s[0], total) + spec_render_entries(s.skip(1), total)
    }
}

/// The whole rendered report: a headline with the number of distinct failing
/// tests, then one block per entry, in order of first sighting.
pub open spec fn spec_render(s: Seq<ReportModel>, total: nat) -> Seq<char> {
    "====== FOUND "@ + crate::text::dec_str(s.len() as int) + " FAILING TESTS ======\n"@
        + spec_render_entries(s, total)
}

#[verifier::rlimit(60)]
proof fn lemma_render_entries_step(s: Seq<ReportModel>, total: nat, i: int)
    requires
        0 <= i < s.len(),
    ensures
        spec_render_entries(s.take(i + 1), total) == spec_render_entries(s.take(i), total)
            + spec_render_entry(s[i], total),
    decreases i,
{
    if i == 0 {
        assert(s.take(1) =~= seq![s[0]]);
        assert(s.take(0) =~= Seq::<ReportModel>::empty());
        assert(seq![s[0]].skip(1) =~= Seq::<ReportModel>::empty());
        assert(spec_render_entries(seq![s[0]], total) == spec_render_entry(s[0], total)
            + spec_render_entries(Seq::<ReportModel>::empty(), total));
        assert(spec_render_entries(Seq::<ReportModel>::empty(), total) == Seq::<char>::empty());
        assert(spec_render_entry(s[0], total) + Seq::<char>::empty() =~= spec_render_entry(
            s[0],
            total,
        ));
        assert(spec_render_entries(s.take(0), total) == Seq::<char>::empty());
        assert(Seq::<char>::empty() + spec_render_entry(s[0], total) =~= spec_render_entry(
            s[0],
            total,
        ));
    } else {
        lemma_render_entries_step(s.skip(1), total, i - 1);
        assert(s.take(i + 1)[0] == s[0]);
        assert(s.take(i + 1).skip(1) =~= s.skip(1).take(i));
        assert(s.take(i).skip(1) =~= s.skip(1).take(i - 1));
        assert(s.take(i)[0] == s[0]);
        assert(s.skip(1)[i - 1] == s[i]);
        assert(spec_render_entries(s.take(i + 1), total) == spec_render_entry(s[0], total) + (
        spec_render_entries(s.skip(1).take(i - 1), total) + spec_render_entry(s[i], total)));
        assert(spec_render_entry(s[0], total) + (spec_render_entries(s.skip(1).take(i - 1), total)
            + spec_render_entry(s[i], total)) =~= (spec_render_entry(s[0], total)
            + spec_render_entries(s.skip(1).take(i - 1), total)) + spec_render_entry(s[i], total));
    }
}

/// Renders one report entry.
#[verifier::rlimit(100)]
fn render_entry(e: &FailureReport, total: usize) -> (s: String)
    ensures
        s@ == spec_render_entry(e.model(), total as nat),
{
    let mut s = String::from_str("test: ");
    s.append(e.name.as_str());
    s.append("\n");
    s.append("failures: ");
    let occ_digits = crate::text::dec_string(e.occurences as u128);
    s.append(occ_digits.as_str());
    s.append("/");
    let total_digits = crate::text::dec_string(total as u128);
    s.append(total_digits.as_str());
    s.append(" (");
    let pct = pct_string(e.occurences, total);
    s.append(pct.as_str());
    s.append("%)\n");
    s.append("path: ");
    s.append(e.bin.as_str());
    s.append("\n");
    match &e.recording {
        Some(p) => {
            s.append("recording available at: ");
            s.append(p.as_str());
            s.append("\n");
        },
        None => {},
    }
    s.append("message:\n");
    s.append(e.message.as_str());
    s.append("\n");
    s.append("\n------------------------------------\n");
    proof {
        reveal(spec_render_entry);
        assert(s@ =~= spec_render_entry(e.model(), total as nat));
    }
    s
}

/// Renders the percentage with two decimal places, truncated.
fn pct_string(occ: usize, total: usize) -> (s: String)
    ensures
        s@ == spec_pct(occ as nat, total as nat),
{
    if total == 0 {
        let s = crate::text::dec_string(0);
        proof {
            assert(crate::text::dec_str(0) =~= seq!['0']);
        }
        return s;
    }
    let prod: u128 = (occ as u128) * 10000;
    let scaled: u128 = prod / (total as u128);
    proof {
        assert(prod as nat == (occ as nat) * 10000);
        assert(scaled as nat == (occ as nat) * 10000 / (total as nat));
    }
    let whole: u128 = scaled / 100;
    let frac: u128 = scaled % 100;
    let mut s = crate::text::dec_string(whole);
    if frac != 0 {
        s.append(".");
        let d1 = crate::text::dec_string(frac / 10);
        let d2 = crate::text::dec_string(frac % 10);
        s.append(d1.as_str());
        s.append(d2.as_str());
        proof {
            reveal_strlit(".");
            assert("."@ =~= seq!['.']);
        }
    }
    s
}

/// A batch that offers no recording destination never claims one.
pub proof fn lemma_batch_no_dst(s: Seq<ReportModel>, fs: Seq<(Seq<char>, Seq<char>)>, bin: Seq<char>)
    ensures
        !spec_register_batch(s, fs, bin, None).1,
        decreases fs.len(),
{
    if fs.len() == 0 {
    } else {
        lemma_batch_no_dst(spec_register(s, event_of(fs[0].0, fs[0].1, bin, None)), fs.skip(1), bin);
    }
}

/// Finds the entry holding this test name, if any, and with it the fact that
/// no earlier entry holds it.
fn find_name(v: &Vec<FailureReport>, name: &str) -> (r: Option<usize>)
    ensures
        match r {
            Some(i) => i < v@.len() && v@[i as int].name@ == name@ && forall|k: int|
                0 <= k < i ==> (#[trigger] v@[k]).name@ != name@,
            None => forall|k: int| 0 <= k < v@.len() ==> (#[trigger] v@[k]).name@ != name@,
        },
{
    let mut i: usize = 0;
    while i < v.len()
        invariant
            i <= v@.len(),
            forall|k: int| 0 <= k < i ==> (#[trigger] v@[k]).name@ != name@,
        decreases v@.len() - i,
    {
        if str_eq(v[i].name.as_str(), name) {
            return Some(i);
        }
        i = i + 1;
    }
    None
}

/// Compares two string slices character by character.
pub fn str_eq(a: &str, b: &str) -> (r: bool)
    ensures
        r == (a@ == b@),
{
    let a_chars = crate::text::str_chars(a);
    let b_chars = crate::text::str_chars(b);
    if a_chars.len() != b_chars.len() {
        proof {
            assert(a@.len() != b@.len());
        }
        return false;
    }
    let mut i: usize = 0;
    while i < a_chars.len()
        invariant
            i <= a_chars@.len(),
            a_chars@ == a@,
            b_chars@ == b@,
            a@.len() == b@.len(),
            forall|k: int| 0 <= k < i ==> a@[k] == b@[k],
        decreases a_chars@.len() - i,
    {
        if a_chars[i] != b_chars[i] {
            return false;
        }
        i = i + 1;
    }
    proof {
        assert(a@ =~= b@);
    }
    true
}

/// Registering a name that sits at index `i` of a duplicate-free collection
/// bumps that entry and changes nothing else.
proof fn lemma_register_at(s: Seq<ReportModel>, e: RegisterEvent, i: int)
    requires
        0 <= i < s.len(),
        s[i].name == e.name,
        forall|p: int, q: int|
            0 <= p < q < s.len() ==> (#[trigger] s[p]).name != (#[trigger] s[q]).name,
    ensures
        spec_register(s, e) == s.update(i, bump(s[i])),
    decreases s.len(),
{
    if i == 0 {
        assert(spec_register(s, e) =~= s.update(0, bump(s[0])));
    } else {
        assert(s[0].name != e.name);
        assert(forall|p: int, q: int|
            0 <= p < q < s.skip(1).len() ==> (#[trigger] s.skip(1)[p]).name != (#[trigger] s.skip(
                1,
            )[q]).name);
        lemma_register_at(s.skip(1), e, i - 1);
        assert(spec_register(s, e) == seq![s[0]] + spec_register(s.skip(1), e));
        assert(seq![s[0]] + s.skip(1).update(i - 1, bump(s.skip(1)[i - 1])) =~= s.update(
            i,
            bump(s[i]),
        ));
    }
}

/// Registering an unseen name appends a fresh entry at the end.
proof fn lemma_register_new(s: Seq<ReportModel>, e: RegisterEvent)
    requires
        !contains_name(s, e.name),
    ensures
        spec_register(s, e) == s.push(
            ReportModel { name: e.name, occ: 1, bin: e.bin, rec: e.rec, msg: e.msg },
        ),
    decreases s.len(),
{
    let fresh = ReportModel { name: e.name, occ: 1, bin: e.bin, rec: e.rec, msg: e.msg };
    if s.len() == 0 {
        assert(spec_register(s, e) =~= s.push(fresh));
    } else {
        assert(s[0].name != e.name) by {
            assert(!(exists|i: int| 0 <= i < s.len() && (#[trigger] s[i]).name == e.name));
        }
        assert(!contains_name(s.skip(1), e.name)) by {
            if contains_name(s.skip(1), e.name) {
                let i = choose|i: int|
                    0 <= i < s.skip(1).len() && (#[trigger] s.skip(1)[i]).name == e.name;
                assert(s[i + 1].name == e.name);
            }
        }
        lemma_register_new(s.skip(1), e);
        assert(spec_register(s, e) == seq![s[0]] + s.skip(1).push(fresh));
        assert(seq![s[0]] + s.skip(1).push(fresh) =~= s.push(fresh));
    }
}

/// Names present before a registration are present after it, and the new
/// event's name is present after it.
proof fn lemma_register_contains(s: Seq<ReportModel>, e: RegisterEvent, name: Seq<char>)
    ensures
        contains_name(s, name) ==> contains_name(spec_register(s, e), name),
        contains_name(spec_register(s, e), e.name),
        name != e.name ==> (contains_name(spec_register(s, e), name) == contains_name(s, name)),
    decreases s.len(),
{
    let r = spec_register(s, e);
    if s.len() == 0 {
        assert(r[0].name == e.name);
        if name != e.name {
            if contains_name(r, name) {
                let i = choose|i: int| 0 <= i < r.len() && (#[trigger] r[i]).name == name;
                assert(i == 0);
                assert(false);
            }
        }
    } else if s[0].name == e.name {
        assert(r =~= seq![bump(s[0])] + s.skip(1));
        assert(r[0].name == e.name);
        if contains_name(s, name) {
            let i = choose|i: int| 0 <= i < s.len() && (#[trigger] s[i]).name == name;
            assert(r[i].name == name);
        }
        if name != e.name && contains_name(r, name) {
            let i = choose|i: int| 0 <= i < r.len() && (#[trigger] r[i]).name == name;
            assert(i > 0);
            assert(s[i].name == name);
        }
    } else {
        lemma_register_contains(s.skip(1), e, name);
        assert(r == seq![s[0]] + spec_register(s.skip(1), e));
        let r1 = spec_register(s.skip(1), e);
        assert(contains_name(r1, e.name));
        let i = choose|i: int| 0 <= i < r1.len() && (#[trigger] r1[i]).name == e.name;
        assert(r[i + 1].name == e.name);
        if contains_name(s, name) {
            let j = choose|j: int| 0 <= j < s.len() && (#[trigger] s[j]).name == name;
            if j == 0 {
                assert(r[0].name == name);
            } else {
                assert(s.skip(1)[j - 1].name == name);
                assert(contains_name(s.skip(1), name));
                let t = choose|t: int| 0 <= t < r1.len() && (#[trigger] r1[t]).name == name;
                assert(r[t + 1].name == name);
            }
        }
        if name != e.name && contains_name(r, name) && !contains_name(s, name) {
            let t = choose|t: int| 0 <= t < r.len() && (#[trigger] r[t]).name == name;
            if t == 0 {
                assert(s[0].name == name);
            } else {
                assert(r1[t - 1].name == name);
                assert(contains_name(r1, name));
                assert(contains_name(s.skip(1), name));
                let u = choose|u: int|
                    0 <= u < s.skip(1).len() && (#[trigger] s.skip(1)[u]).name == name;
                assert(s[u + 1].name == name);
            }
        }
    }
}

/// The collection after a whole sequence of registrations, applied in order.
pub open spec fn spec_run_events(s: Seq<ReportModel>, tr: Seq<RegisterEvent>) -> Seq<ReportModel>
    decreases tr.len(),
{
    if tr.len() == 0 {
        s
    } else {
        spec_run_events(spec_register(s, tr[0]), tr.skip(1))
    }
}

/// How many registrations of the given name along the trace claim a
/// recording destination.
pub open spec fn spec_promotions_for(
    s: Seq<ReportModel>,
    tr: Seq<RegisterEvent>,
    name: Seq<char>,
) -> nat
    decreases tr.len(),
{
    if tr.len() == 0 {
        0nat
    } else {
        (if tr[0].name == name && spec_claimed(s, tr[0]) {
            1nat
        } else {
            0nat
        }) + spec_promotions_for(spec_register(s, tr[0]), tr.skip(1), name)
    }
}

/// How many registrations along the trace claim a recording destination.
pub open spec fn spec_promotions(s: Seq<ReportModel>, tr: Seq<RegisterEvent>) -> nat
    decreases tr.len(),
{
    if tr.len() == 0 {
        0nat
    } else {
        (if spec_claimed(s, tr[0]) {
            1nat
        } else {
            0nat
        }) + spec_promotions(spec_register(s, tr[0]), tr.skip(1))
    }
}

/// How many entries hold a recording.
pub open spec fn count_recorded(s: Seq<ReportModel>) -> nat
    decreases s.len(),
{
    if s.len() == 0 {
        0nat
    } else {
        (if s[0].rec is Some {
            1nat
        } else {
            0nat
        }) + count_recorded(s.skip(1))
    }
}

/// Law: across any sequence of registrations, a recording destination is
/// claimed — and so a promotion performed — at most once per distinct test
/// name, however often that name fails; and never for a name that was
/// already present when the trace began.
pub proof fn lemma_promotion_at_most_once(
    s: Seq<ReportModel>,
    tr: Seq<RegisterEvent>,
    name: Seq<char>,
)
    ensures
        spec_promotions_for(s, tr, name) <= 1,
        contains_name(s, name) ==> spec_promotions_for(s, tr, name) == 0,
    decreases tr.len(),
{
    if tr.len() == 0 {
    } else {
        let e = tr[0];
        let s1 = spec_register(s, e);
        lemma_register_contains(s, e, name);
        lemma_promotion_at_most_once(s1, tr.skip(1), name);
        if contains_name(s, name) {
            if e.name == name {
                assert(!spec_claimed(s, e));
            }
        } else if e.name == name {
            assert(contains_name(s1, name));
        }
    }
}

proof fn lemma_register_count_recorded(s: Seq<ReportModel>, e: RegisterEvent)
    ensures
        count_recorded(spec_register(s, e)) == count_recorded(s) + (if spec_claimed(s, e) {
            1nat
        } else {
            0nat
        }),
    decreases s.len(),
{
    let r = spec_register(s, e);
    if s.len() == 0 {
        assert(r.skip(1) =~= Seq::<ReportModel>::empty());
        assert(r[0].rec == e.rec);
        assert(count_recorded(r) == (if e.rec is Some {
            1nat
        } else {
            0nat
        }) + count_recorded(Seq::<ReportModel>::empty()));
        assert(spec_claimed(s, e) == (e.rec is Some));
    } else if s[0].name == e.name {
        assert(r == seq![bump(s[0])] + s.skip(1));
        assert(r.skip(1) =~= s.skip(1));
        assert(r[0] == bump(s[0]));
        assert(r[0].rec == s[0].rec);
        assert(r.len() == s.len());
        assert(count_recorded(r) == (if r[0].rec is Some {
            1nat
        } else {
            0nat
        }) + count_recorded(r.skip(1)));
        assert(count_recorded(s) == (if s[0].rec is Some {
            1nat
        } else {
            0nat
        }) + count_recorded(s.skip(1)));
        assert(!spec_claimed(s, e)) by {
            assert(s[0].name == e.name);
        }
    } else {
        lemma_register_count_recorded(s.skip(1), e);
        assert(r == seq![s[0]] + spec_register(s.skip(1), e));
        assert(r.skip(1) =~= spec_register(s.skip(1), e));
        assert(r[0] == s[0]);
        assert(spec_claimed(s, e) == spec_claimed(s.skip(1), e)) by {
            if contains_name(s, e.name) {
                let i = choose|i: int| 0 <= i < s.len() && (#[trigger] s[i]).name == e.name;
                assert(s.skip(1)[i - 1].name == e.name);
            }
            if contains_name(s.skip(1), e.name) {
                let i = choose|i: int|
                    0 <= i < s.skip(1).len() && (#[trigger] s.skip(1)[i]).name == e.name;
                assert(s[i + 1].name == e.name);
            }
        }
    }
}

proof fn lemma_count_recorded_le(s: Seq<ReportModel>)
    ensures
        count_recorded(s) <= s.len(),
    decreases s.len(),
{
    if s.len() > 0 {
        lemma_count_recorded_le(s.skip(1));
    }
}

proof fn lemma_run_count_recorded(s: Seq<ReportModel>, tr: Seq<RegisterEvent>)
    ensures
        count_recorded(spec_run_events(s, tr)) == count_recorded(s) + spec_promotions(s, tr),
    decreases tr.len(),
{
    if tr.len() > 0 {
        lemma_register_count_recorded(s, tr[0]);
        lemma_run_count_recorded(spec_register(s, tr[0]), tr.skip(1));
    }
}

/// Law: however a run goes, the number of claimed — and so persisted —
/// recordings never exceeds the number of distinct failing test names in the
/// final report.
pub proof fn lemma_disk_bound(tr: Seq<RegisterEvent>)
    ensures
        spec_promotions(Seq::<ReportModel>::empty(), tr) <= spec_run_events(
            Seq::<ReportModel>::empty(),
            tr,
        ).len(),
{
    lemma_run_count_recorded(Seq::<ReportModel>::empty(), tr);
    lemma_count_recorded_le(spec_run_events(Seq::<ReportModel>::empty(), tr));
}

proof fn lemma_register_found_at_end(a: Seq<ReportModel>, m: ReportModel, e: RegisterEvent)
    requires
        e.name == m.name,
        !contains_name(a, m.name),
    ensures
        spec_register(a.push(m), e) == a.push(bump(m)),
    decreases a.len(),
{
    let s = a.push(m);
    if a.len() == 0 {
        assert(s[0] == m);
        assert(s.skip(1) =~= Seq::<ReportModel>::empty());
        assert(spec_register(s, e) =~= a.push(bump(m)));
    } else {
        assert(s[0] == a[0]);
        assert(a[0].name != e.name) by {
            assert(contains_name(a, m.name) <== a[0].name == m.name);
        }
        assert(!contains_name(a.skip(1), m.name)) by {
            if contains_name(a.skip(1), m.name) {
                let i = choose|i: int|
                    0 <= i < a.skip(1).len() && (#[trigger] a.skip(1)[i]).name == m.name;
                assert(a[i + 1].name == m.name);
            }
        }
        assert(s.skip(1) =~= a.skip(1).push(m));
        lemma_register_found_at_end(a.skip(1), m, e);
        assert(spec_register(s, e) == seq![a[0]] + a.skip(1).push(bump(m)));
        assert(seq![a[0]] + a.skip(1).push(bump(m)) =~= a.push(bump(m)));
    }
}

proof fn lemma_counting_existing(
    a: Seq<ReportModel>,
    m: ReportModel,
    tr: Seq<RegisterEvent>,
    name: Seq<char>,
)
    requires
        m.name == name,
        !contains_name(a, name),
        forall|i: int| 0 <= i < tr.len() ==> (#[trigger] tr[i]).name == name,
        m.occ + tr.len() <= usize::MAX as nat,
    ensures
        spec_run_events(a.push(m), tr) == a.push(
            ReportModel { occ: (m.occ + tr.len()) as nat, ..m },
        ),
    decreases tr.len(),
{
    if tr.len() == 0 {
        assert(ReportModel { occ: (m.occ + 0) as nat, ..m } == m);
    } else {
        lemma_register_found_at_end(a, m, tr[0]);
        assert(bump(m) == ReportModel { occ: (m.occ + 1) as nat, ..m });
        lemma_counting_existing(a, bump(m), tr.skip(1), name);
        assert(ReportModel { occ: (bump(m).occ + tr.skip(1).len()) as nat, ..bump(m) }
            == ReportModel { occ: (m.occ + tr.len()) as nat, ..m });
    }
}

/// Every entry's occurrence count is at most this bound.
pub open spec fn all_occ_le(s: Seq<ReportModel>, b: nat) -> bool {
    forall|i: int| 0 <= i < s.len() ==> (#[trigger] s[i]).occ <= b
}

proof fn lemma_register_occ(s: Seq<ReportModel>, e: RegisterEvent, b: nat)
    requires
        all_occ_le(s, b),
    ensures
        all_occ_le(spec_register(s, e), b + 1),
    decreases s.len(),
{
    let r = spec_register(s, e);
    if s.len() == 0 {
        assert(r[0].occ == 1);
    } else if s[0].name == e.name {
        assert forall|i: int| 0 <= i < r.len() implies (#[trigger] r[i]).occ <= b + 1 by {
            if i == 0 {
                assert(s[0].occ <= b);
            } else {
                assert(r[i] == s[i]);
                assert(s[i].occ <= b);
            }
        }
    } else {
        assert(all_occ_le(s.skip(1), b)) by {
            assert(forall|i: int|
                0 <= i < s.skip(1).len() ==> (#[trigger] s.skip(1)[i]) == s[i + 1]);
        }
        lemma_register_occ(s.skip(1), e, b);
        let r1 = spec_register(s.skip(1), e);
        assert forall|i: int| 0 <= i < r.len() implies (#[trigger] r[i]).occ <= b + 1 by {
            if i == 0 {
                assert(r[0] == s[0]);
                assert(s[0].occ <= b);
            } else {
                assert(r[i] == r1[i - 1]);
            }
        }
    }
}

proof fn lemma_run_occ(s: Seq<ReportModel>, tr: Seq<RegisterEvent>, b: nat)
    requires
        all_occ_le(s, b),
    ensures
        all_occ_le(spec_run_events(s, tr), b + tr.len()),
    decreases tr.len(),
{
    if tr.len() > 0 {
        lemma_register_occ(s, tr[0], b);
        lemma_run_occ(spec_register(s, tr[0]), tr.skip(1), b + 1);
    }
}

/// Law: however a run goes, no entry's occurrence count exceeds the number
/// of registrations made — one per failure observed, across all binaries and
/// iterations.
pub proof fn lemma_occurrence_bound(tr: Seq<RegisterEvent>)
    ensures
        all_occ_le(spec_run_events(Seq::<ReportModel>::empty(), tr), tr.len()),
{
    lemma_run_occ(Seq::<ReportModel>::empty(), tr, 0);
}

/// Law: registering the same test name K times, starting from a collection
/// that does not hold it, appends exactly one entry whose occurrence count is
/// K and whose message, binary and recording are the first registration's;
/// nothing else changes.
pub proof fn lemma_idempotent_counting(
    s: Seq<ReportModel>,
    tr: Seq<RegisterEvent>,
    name: Seq<char>,
)
    requires
        !contains_name(s, name),
        1 <= tr.len() <= usize::MAX as nat,
        forall|i: int| 0 <= i < tr.len() ==> (#[trigger] tr[i]).name == name,
    ensures
        spec_run_events(s, tr) == s.push(
            ReportModel {
                name,
                occ: tr.len() as nat,
                bin: tr[0].bin,
                rec: tr[0].rec,
                msg: tr[0].msg,
            },
        ),
{
    let first = ReportModel { name, occ: 1, bin: tr[0].bin, rec: tr[0].rec, msg: tr[0].msg };
    lemma_register_new(s, tr[0]);
    assert(spec_register(s, tr[0]) == s.push(first));
    lemma_counting_existing(s, first, tr.skip(1), name);
    assert(ReportModel { occ: (first.occ + tr.skip(1).len()) as nat, ..first } == ReportModel {
        name,
        occ: tr.len() as nat,
        bin: tr[0].bin,
        rec: tr[0].rec,
        msg: tr[0].msg,
    });
}

} // verus!
