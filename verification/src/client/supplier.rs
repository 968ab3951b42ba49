//! Supplier-specific stores, gated on what the car is made of.
//!
//! What decides is frequently not the ECU being addressed: `D_KBM` hangs on a footwell module and an
//! option code, `D_LM` on a lamp module, and `D_0066` by group where the others go by variant.
use vstd::prelude::*;
use crate::text::{
    same_chars, same_chars_ignoring_case, split_chars, to_chars, trim,
};

verus! {

/// What the car is made of, as the supplier gates read it.
#[derive(Debug, Clone)]
pub struct VehicleComposition {
    /// Identified variant names, e.g. `FEM_20`. Matched ignoring ASCII case.
    pub sgbds: Vec<String>,
    /// Identified group names, e.g. `D_0066`; one entry may be a `|`-separated list.
    pub groups: Vec<String>,
    /// Option codes off the vehicle order, e.g. `524`. `None` means *not known*, as distinct from
    /// a known list that is empty.
    pub sa_codes: Option<Vec<String>>,
}

impl Default for VehicleComposition {
    /// A car of which nothing is known.
    fn default() -> (r: VehicleComposition)
        ensures
            r.sgbds@.len() == 0,
            r.groups@.len() == 0,
            r.sa_codes is None,
    {
        VehicleComposition { sgbds: Vec::new(), groups: Vec::new(), sa_codes: None }
    }
}

/// Whether one of `names` is `name`, ignoring ASCII case.
pub open spec fn named_among(names: Seq<Seq<char>>, name: Seq<char>) -> bool {
    exists|i: int|
        0 <= i < names.len() && crate::text::same_ignoring_case(#[trigger] names[i], name)
}

/// Whether one part of a `|`-separated list is `name`, trimmed and ignoring ASCII case.
pub open spec fn listed_in(list: Seq<char>, name: Seq<char>) -> bool {
    exists|j: int|
        0 <= j < crate::text::split(list, '|').len() && crate::text::same_ignoring_case(
            crate::text::trimmed(#[trigger] crate::text::split(list, '|')[j]),
            name,
        )
}

/// Whether a variant of this name was identified.
pub open spec fn sgbd_present(v: VehicleComposition, name: Seq<char>) -> bool {
    named_among(crate::text::text_views(v.sgbds@), name)
}

/// Whether a group of this name was identified.
pub open spec fn group_present(v: VehicleComposition, name: Seq<char>) -> bool {
    exists|i: int| 0 <= i < v.groups@.len() && listed_in((#[trigger] v.groups@[i])@, name)
}

/// Whether one of `codes` is `code`, trimmed.
pub open spec fn code_among(codes: Seq<String>, code: Seq<char>) -> bool {
    exists|i: int| 0 <= i < codes.len() && crate::text::trimmed((#[trigger] codes[i])@) == code
}

/// Whether the vehicle order carries an option code, where it is known.
pub open spec fn sa_present(v: VehicleComposition, code: Seq<char>) -> Option<bool> {
    match v.sa_codes {
        Some(codes) => Some(code_among(codes@, code)),
        None => None,
    }
}

impl VehicleComposition {
    /// Whether a variant of this name was identified on the car.
    pub fn has_sgbd(&self, name: &str) -> (r: bool)
        ensures
            r == sgbd_present(*self, name@),
    {
        let ghost names = crate::text::text_views(self.sgbds@);
        let wanted = to_chars(name);
        let mut i: usize = 0;
        while i < self.sgbds.len()
            invariant
                i <= self.sgbds.len(),
                wanted@ == name@,
                names == crate::text::text_views(self.sgbds@),
                forall|k: int|
                    0 <= k < i ==> !crate::text::same_ignoring_case(#[trigger] names[k], name@),
            decreases self.sgbds.len() - i,
        {
            let candidate = to_chars(self.sgbds[i].as_str());
            assert(candidate@ == names[i as int]);
            if same_chars_ignoring_case(candidate.as_slice(), wanted.as_slice()) {
                return true;
            }
            i = i + 1;
        }
        false
    }

    /// Whether a group of this name was identified on the car.
    pub fn has_group(&self, name: &str) -> (r: bool)
        ensures
            r == group_present(*self, name@),
    {
        let wanted = to_chars(name);
        let mut i: usize = 0;
        while i < self.groups.len()
            invariant
                i <= self.groups.len(),
                wanted@ == name@,
                forall|k: int| 0 <= k < i ==> !listed_in((#[trigger] self.groups@[k])@, name@),
            decreases self.groups.len() - i,
        {
            let list = to_chars(self.groups[i].as_str());
            let parts = split_chars(list.as_slice(), '|');
            let ghost views = crate::text::split(list@, '|');
            let mut j: usize = 0;
            while j < parts.len()
                invariant
                    j <= parts.len(),
                    wanted@ == name@,
                    i < self.groups.len(),
                    list@ == self.groups@[i as int]@,
                    views == crate::text::split(list@, '|'),
                    crate::text::chars_views(parts@) == views,
                    forall|k: int|
                        0 <= k < j ==> !crate::text::same_ignoring_case(
                            crate::text::trimmed(#[trigger] views[k]),
                            name@,
                        ),
                decreases parts.len() - j,
            {
                assert(crate::text::chars_views(parts@)[j as int] == parts@[j as int]@);
                if same_chars_ignoring_case(trim(parts[j].as_slice()), wanted.as_slice()) {
                    assert(listed_in(self.groups@[i as int]@, name@));
                    return true;
                }
                j = j + 1;
            }
            assert(crate::text::chars_views(parts@).len() == parts@.len());
            i = i + 1;
        }
        false
    }

    /// Whether the vehicle order carries an option code; `None` when the option list is not known.
    pub fn has_sa(&self, code: &str) -> (r: Option<bool>)
        ensures
            r == sa_present(*self, code@),
    {
        let codes = match &self.sa_codes {
            Some(codes) => codes,
            None => {
                return None;
            },
        };
        let wanted = to_chars(code);
        let mut i: usize = 0;
        while i < codes.len()
            invariant
                i <= codes.len(),
                wanted@ == code@,
                self.sa_codes == Some(*codes),
                forall|k: int|
                    0 <= k < i ==> crate::text::trimmed((#[trigger] codes@[k])@) != code@,
            decreases codes.len() - i,
        {
            let candidate = to_chars(codes[i].as_str());
            if same_chars(trim(candidate.as_slice()), wanted.as_slice()) {
                assert(code_among(codes@, code@));
                return Some(true);
            }
            i = i + 1;
        }
        Some(false)
    }
}

/// One supplier-specific store clear: a job by name, on the ECU that a name resolves to.
#[derive(Debug, Clone, Copy, PartialEq, Eq)]
pub struct SupplierJob {
    /// The variant or group the job is addressed to, e.g. `FEM_20`, `D_KBM`.
    pub ecu: &'static str,
    /// The job name, e.g. `IS_LOESCHEN_TMS`.
    pub job: &'static str,
    /// The job argument; empty for most of them.
    pub arg: &'static str,
}

/// One supplier job's place in a clear sequence: what is planned, and what became of it.
#[derive(Debug, Clone, PartialEq, Eq)]
pub struct SupplierJobReport {
    /// The job whose gate the car satisfied.
    pub job: SupplierJob,
    /// Why it was not executed, or `None` if it ran.
    pub not_run: Option<String>,
}

/// What a [`SupplierJobReport`] holds.
#[verifier::ext_equal]
pub struct JobReportView {
    pub job: SupplierJob,
    pub not_run: Option<Seq<char>>,
}

impl View for SupplierJobReport {
    type V = JobReportView;

    open spec fn view(&self) -> JobReportView {
        JobReportView { job: self.job, not_run: crate::text::opt_view(self.not_run) }
    }
}

/// The views of job reports.
pub open spec fn reports_view(v: Seq<SupplierJobReport>) -> Seq<JobReportView> {
    Seq::new(v.len(), |i: int| v[i]@)
}

/// Why a supplier job did not run when no runner was supplied.
pub const SUPPLIER_NOT_RUN: &'static str = "no job runner was supplied to the clear sequence, so this job was planned but not transmitted (klartext-client cannot execute EDIABAS jobs itself \u{2014} the BEST/2 VM lives above it and the composing binary supplies the runner)";

/// Two jobs, if the condition holds.
pub open spec fn gated(open: bool, first: SupplierJob, second: SupplierJob) -> Seq<SupplierJob> {
    if open {
        seq![first, second]
    } else {
        Seq::<SupplierJob>::empty()
    }
}

/// The jobs that the six gates let through, in their fixed order.
pub open spec fn let_through(
    fem: bool,
    frm3: bool,
    kbm: bool,
    group66: bool,
    alc: bool,
    lm: bool,
) -> Seq<SupplierJob> {
    gated(
        fem,
        SupplierJob { ecu: "FEM_20", job: "IS_LOESCHEN_TMS", arg: "0x01" },
        SupplierJob { ecu: "FEM_20", job: "IS_LOESCHEN_TMS", arg: "0x02" },
    ) + gated(
        frm3,
        SupplierJob { ecu: "FRM3", job: "IS_LOESCHEN_TMS_L_LEAR", arg: "" },
        SupplierJob { ecu: "FRM3", job: "IS_LOESCHEN_TMS_R_LEAR", arg: "" },
    ) + gated(
        kbm,
        SupplierJob { ecu: "D_KBM", job: "IS_LOESCHEN_SMC_L_LEAR", arg: "" },
        SupplierJob { ecu: "D_KBM", job: "IS_LOESCHEN_SMC_R_LEAR", arg: "" },
    ) + gated(
        group66,
        SupplierJob { ecu: "D_0066", job: "IS_LOESCHEN_SMC_L", arg: "" },
        SupplierJob { ecu: "D_0066", job: "IS_LOESCHEN_SMC_R", arg: "" },
    ) + gated(
        alc,
        SupplierJob { ecu: "ALC_60", job: "IS_LOESCHEN_SMC_L_LEAR", arg: "" },
        SupplierJob { ecu: "ALC_60", job: "IS_LOESCHEN_SMC_R_LEAR", arg: "" },
    ) + gated(
        lm,
        SupplierJob { ecu: "D_LM", job: "IS_LOESCHEN_SMC_L_LEAR", arg: "" },
        SupplierJob { ecu: "D_LM", job: "IS_LOESCHEN_SMC_R_LEAR", arg: "" },
    )
}

/// The jobs that a car's gates let through. An option list that is not known counts as lacking
/// the option: firing a supplier write on a guess would be worse.
pub open spec fn planned_jobs(v: VehicleComposition) -> Seq<SupplierJob> {
    let_through(
        sgbd_present(v, "FEM_20"@),
        sgbd_present(v, "FRM3"@),
        (sgbd_present(v, "FRM_70"@) || sgbd_present(v, "FRM_87"@)) && sa_present(v, "524"@) == Some(
            true,
        ),
        group_present(v, "D_0066"@),
        sgbd_present(v, "ALC_60"@),
        sgbd_present(v, "LM_AHL"@) || sgbd_present(v, "LM_AHL_2"@),
    )
}

/// The reports of planned jobs before any was run.
pub open spec fn planned_reports(v: VehicleComposition) -> Seq<JobReportView> {
    Seq::new(
        planned_jobs(v).len(),
        |i: int| JobReportView { job: planned_jobs(v)[i], not_run: Some(SUPPLIER_NOT_RUN@) },
    )
}

/// Append two jobs, if the condition holds.
fn push_gated(jobs: &mut Vec<SupplierJob>, open: bool, first: SupplierJob, second: SupplierJob)
    ensures
        final(jobs)@ == old(jobs)@ + gated(open, first, second),
{
    let ghost start = jobs@;
    if open {
        jobs.push(first);
        jobs.push(second);
    }
    assert(jobs@ =~= start + gated(open, first, second));
}

/// The supplier-specific store clears that this car's composition calls for, in their fixed order.
///
/// On a car with none of these ECUs the list is empty. Every entry says that it was not
/// transmitted; running one replaces that.
pub fn supplier_clear_jobs(vehicle: &VehicleComposition) -> (r: Vec<SupplierJobReport>)
    ensures
        reports_view(r@) == planned_reports(*vehicle),
{
    let mut jobs: Vec<SupplierJob> = Vec::new();
    push_gated(
        &mut jobs,
        vehicle.has_sgbd("FEM_20"),
        SupplierJob { ecu: "FEM_20", job: "IS_LOESCHEN_TMS", arg: "0x01" },
        SupplierJob { ecu: "FEM_20", job: "IS_LOESCHEN_TMS", arg: "0x02" },
    );
    push_gated(
        &mut jobs,
        vehicle.has_sgbd("FRM3"),
        SupplierJob { ecu: "FRM3", job: "IS_LOESCHEN_TMS_L_LEAR", arg: "" },
        SupplierJob { ecu: "FRM3", job: "IS_LOESCHEN_TMS_R_LEAR", arg: "" },
    );
    let frm = vehicle.has_sgbd("FRM_70") || vehicle.has_sgbd("FRM_87");
    let option = match vehicle.has_sa("524") {
        Some(present) => present,
        None => false,
    };
    push_gated(
        &mut jobs,
        frm && option,
        SupplierJob { ecu: "D_KBM", job: "IS_LOESCHEN_SMC_L_LEAR", arg: "" },
        SupplierJob { ecu: "D_KBM", job: "IS_LOESCHEN_SMC_R_LEAR", arg: "" },
    );
    push_gated(
        &mut jobs,
        vehicle.has_group("D_0066"),
        SupplierJob { ecu: "D_0066", job: "IS_LOESCHEN_SMC_L", arg: "" },
        SupplierJob { ecu: "D_0066", job: "IS_LOESCHEN_SMC_R", arg: "" },
    );
    push_gated(
        &mut jobs,
        vehicle.has_sgbd("ALC_60"),
        SupplierJob { ecu: "ALC_60", job: "IS_LOESCHEN_SMC_L_LEAR", arg: "" },
        SupplierJob { ecu: "ALC_60", job: "IS_LOESCHEN_SMC_R_LEAR", arg: "" },
    );
    push_gated(
        &mut jobs,
        vehicle.has_sgbd("LM_AHL") || vehicle.has_sgbd("LM_AHL_2"),
        SupplierJob { ecu: "D_LM", job: "IS_LOESCHEN_SMC_L_LEAR", arg: "" },
        SupplierJob { ecu: "D_LM", job: "IS_LOESCHEN_SMC_R_LEAR", arg: "" },
    );
    assert(jobs@ =~= planned_jobs(*vehicle));
    let mut out: Vec<SupplierJobReport> = Vec::new();
    let mut i: usize = 0;
    while i < jobs.len()
        invariant
            i <= jobs.len(),
            jobs@ == planned_jobs(*vehicle),
            reports_view(out@) == planned_reports(*vehicle).take(i as int),
        decreases jobs.len() - i,
    {
        let ghost before = reports_view(out@);
        let report = SupplierJobReport {
            job: jobs[i],
            not_run: Some(SUPPLIER_NOT_RUN.to_owned()),
        };
        let ghost view = report@;
        out.push(report);
        assert(reports_view(out@) =~= before.push(view));
        assert(planned_reports(*vehicle).take(i + 1) =~= before.push(view));
        i = i + 1;
    }
    assert(planned_reports(*vehicle).take(i as int) =~= planned_reports(*vehicle));
    out
}

/// A car with none of the gating ECUs gets no supplier job, and no car gets a general info-memory
/// clear: every planned job is one of the known supplier stores'.
pub proof fn law_only_supplier_stores_are_planned(v: VehicleComposition)
    ensures
        v.sgbds@.len() == 0 && v.groups@.len() == 0 ==> planned_jobs(v).len() == 0,
        planned_jobs(v).len() <= 12,
        forall|i: int|
            0 <= i < planned_jobs(v).len() ==> {
                let job = (#[trigger] planned_jobs(v)[i]).job;
                ||| job == "IS_LOESCHEN_TMS"
                ||| job == "IS_LOESCHEN_TMS_L_LEAR"
                ||| job == "IS_LOESCHEN_TMS_R_LEAR"
                ||| job == "IS_LOESCHEN_SMC_L"
                ||| job == "IS_LOESCHEN_SMC_R"
                ||| job == "IS_LOESCHEN_SMC_L_LEAR"
                ||| job == "IS_LOESCHEN_SMC_R_LEAR"
            },
{
}

/// Whether every text of `a` is one of `b`.
pub open spec fn among(a: Seq<String>, b: Seq<String>) -> bool {
    forall|i: int|
        0 <= i < a.len() ==> exists|j: int| 0 <= j < b.len() && (#[trigger] b[j])@ == (#[trigger] a[i])@
}

/// Whether everything known of `a` is known of `b` too.
pub open spec fn part_of(a: VehicleComposition, b: VehicleComposition) -> bool {
    &&& among(a.sgbds@, b.sgbds@)
    &&& among(a.groups@, b.groups@)
    &&& match (a.sa_codes, b.sa_codes) {
        (Some(x), Some(y)) => among(x@, y@),
        (Some(_), None) => false,
        (None, _) => true,
    }
}

proof fn lemma_sgbds_grow(a: VehicleComposition, b: VehicleComposition, name: Seq<char>)
    requires
        part_of(a, b),
        sgbd_present(a, name),
    ensures
        sgbd_present(b, name),
{
    let x = crate::text::text_views(a.sgbds@);
    let y = crate::text::text_views(b.sgbds@);
    let i = choose|i: int| 0 <= i < x.len() && crate::text::same_ignoring_case(#[trigger] x[i], name);
    assert(a.sgbds@[i]@ == x[i]);
    let j = choose|j: int| 0 <= j < b.sgbds@.len() && (#[trigger] b.sgbds@[j])@ == a.sgbds@[i]@;
    assert(y[j] == x[i]);
}

proof fn lemma_groups_grow(a: VehicleComposition, b: VehicleComposition, name: Seq<char>)
    requires
        part_of(a, b),
        group_present(a, name),
    ensures
        group_present(b, name),
{
    let i = choose|i: int| 0 <= i < a.groups@.len() && listed_in((#[trigger] a.groups@[i])@, name);
    let j = choose|j: int| 0 <= j < b.groups@.len() && (#[trigger] b.groups@[j])@ == a.groups@[i]@;
    assert(listed_in(b.groups@[j]@, name));
}

proof fn lemma_options_grow(a: VehicleComposition, b: VehicleComposition, code: Seq<char>)
    requires
        part_of(a, b),
        sa_present(a, code) == Some(true),
    ensures
        sa_present(b, code) == Some(true),
{
    let x = a.sa_codes->0@;
    let y = b.sa_codes->0@;
    let i = choose|i: int| 0 <= i < x.len() && crate::text::trimmed((#[trigger] x[i])@) == code;
    let j = choose|j: int| 0 <= j < y.len() && (#[trigger] y[j])@ == x[i]@;
    assert(crate::text::trimmed(y[j]@) == code);
}

proof fn lemma_gate_grows(
    x: Seq<SupplierJob>,
    y: Seq<SupplierJob>,
    narrow: bool,
    wide: bool,
    first: SupplierJob,
    second: SupplierJob,
    job: SupplierJob,
)
    requires
        narrow ==> wide,
        x.contains(job) ==> y.contains(job),
    ensures
        (x + gated(narrow, first, second)).contains(job) ==> (y + gated(wide, first, second)).contains(
            job,
        ),
{
    let small = x + gated(narrow, first, second);
    let large = y + gated(wide, first, second);
    if small.contains(job) {
        let i = choose|i: int| 0 <= i < small.len() && small[i] == job;
        if i < x.len() {
            assert(x[i] == job);
            let j = choose|j: int| 0 <= j < y.len() && y[j] == job;
            assert(large[j] == job);
        } else {
            assert(large[y.len() + (i - x.len())] == job);
        }
    }
}

#[verifier::spinoff_prover]
proof fn lemma_gates_grow(
    a: (bool, bool, bool, bool, bool, bool),
    b: (bool, bool, bool, bool, bool, bool),
    job: SupplierJob,
)
    requires
        a.0 ==> b.0,
        a.1 ==> b.1,
        a.2 ==> b.2,
        a.3 ==> b.3,
        a.4 ==> b.4,
        a.5 ==> b.5,
    ensures
        let_through(a.0, a.1, a.2, a.3, a.4, a.5).contains(job) ==> let_through(
            b.0,
            b.1,
            b.2,
            b.3,
            b.4,
            b.5,
        ).contains(job),
        let_through(a.0, a.1, a.2, a.3, a.4, a.5).len() <= let_through(
            b.0,
            b.1,
            b.2,
            b.3,
            b.4,
            b.5,
        ).len(),
{
    let fem1 = SupplierJob { ecu: "FEM_20", job: "IS_LOESCHEN_TMS", arg: "0x01" };
    let fem2 = SupplierJob { ecu: "FEM_20", job: "IS_LOESCHEN_TMS", arg: "0x02" };
    let frm1 = SupplierJob { ecu: "FRM3", job: "IS_LOESCHEN_TMS_L_LEAR", arg: "" };
    let frm2 = SupplierJob { ecu: "FRM3", job: "IS_LOESCHEN_TMS_R_LEAR", arg: "" };
    let kbm1 = SupplierJob { ecu: "D_KBM", job: "IS_LOESCHEN_SMC_L_LEAR", arg: "" };
    let kbm2 = SupplierJob { ecu: "D_KBM", job: "IS_LOESCHEN_SMC_R_LEAR", arg: "" };
    let smc1 = SupplierJob { ecu: "D_0066", job: "IS_LOESCHEN_SMC_L", arg: "" };
    let smc2 = SupplierJob { ecu: "D_0066", job: "IS_LOESCHEN_SMC_R", arg: "" };
    let alc1 = SupplierJob { ecu: "ALC_60", job: "IS_LOESCHEN_SMC_L_LEAR", arg: "" };
    let alc2 = SupplierJob { ecu: "ALC_60", job: "IS_LOESCHEN_SMC_R_LEAR", arg: "" };
    let lm1 = SupplierJob { ecu: "D_LM", job: "IS_LOESCHEN_SMC_L_LEAR", arg: "" };
    let lm2 = SupplierJob { ecu: "D_LM", job: "IS_LOESCHEN_SMC_R_LEAR", arg: "" };
    let (a1, b1) = (gated(a.0, fem1, fem2), gated(b.0, fem1, fem2));
    assert(a1.contains(job) ==> b1.contains(job));
    let (a2, b2) = (a1 + gated(a.1, frm1, frm2), b1 + gated(b.1, frm1, frm2));
    lemma_gate_grows(a1, b1, a.1, b.1, frm1, frm2, job);
    let (a3, b3) = (a2 + gated(a.2, kbm1, kbm2), b2 + gated(b.2, kbm1, kbm2));
    lemma_gate_grows(a2, b2, a.2, b.2, kbm1, kbm2, job);
    let (a4, b4) = (a3 + gated(a.3, smc1, smc2), b3 + gated(b.3, smc1, smc2));
    lemma_gate_grows(a3, b3, a.3, b.3, smc1, smc2, job);
    let (a5, b5) = (a4 + gated(a.4, alc1, alc2), b4 + gated(b.4, alc1, alc2));
    lemma_gate_grows(a4, b4, a.4, b.4, alc1, alc2, job);
    lemma_gate_grows(a5, b5, a.5, b.5, lm1, lm2, job);
}

/// The gates that a car opens.
spec fn gates_of(v: VehicleComposition) -> (bool, bool, bool, bool, bool, bool) {
    (
        sgbd_present(v, "FEM_20"@),
        sgbd_present(v, "FRM3"@),
        (sgbd_present(v, "FRM_70"@) || sgbd_present(v, "FRM_87"@)) && sa_present(v, "524"@) == Some(
            true,
        ),
        group_present(v, "D_0066"@),
        sgbd_present(v, "ALC_60"@),
        sgbd_present(v, "LM_AHL"@) || sgbd_present(v, "LM_AHL_2"@),
    )
}

proof fn lemma_gates_open(a: VehicleComposition, b: VehicleComposition)
    requires
        part_of(a, b),
    ensures
        gates_of(a).0 ==> gates_of(b).0,
        gates_of(a).1 ==> gates_of(b).1,
        gates_of(a).2 ==> gates_of(b).2,
        gates_of(a).3 ==> gates_of(b).3,
        gates_of(a).4 ==> gates_of(b).4,
        gates_of(a).5 ==> gates_of(b).5,
{
    assert forall|name: Seq<char>| #[trigger] sgbd_present(a, name) implies sgbd_present(b, name) by {
        lemma_sgbds_grow(a, b, name);
    }
    if group_present(a, "D_0066"@) {
        lemma_groups_grow(a, b, "D_0066"@);
    }
    if sa_present(a, "524"@) == Some(true) {
        lemma_options_grow(a, b, "524"@);
    }
}

/// What more is known of a car only adds jobs: every job planned for a car is planned for every
/// car that has all that it has.
pub proof fn law_more_of_a_car_never_plans_less(a: VehicleComposition, b: VehicleComposition)
    requires
        part_of(a, b),
    ensures
        forall|job: SupplierJob| #[trigger]
            planned_jobs(a).contains(job) ==> planned_jobs(b).contains(job),
        planned_jobs(a).len() <= planned_jobs(b).len(),
{
    lemma_gates_open(a, b);
    let (x, y) = (gates_of(a), gates_of(b));
    lemma_gates_grow(x, y, SupplierJob { ecu: "", job: "", arg: "" });
    assert forall|job: SupplierJob| #[trigger] planned_jobs(a).contains(job) implies planned_jobs(
        b,
    ).contains(job) by {
        lemma_gates_grow(x, y, job);
    }
}

/// While the option list is not known, no job is planned that needs an option code.
pub proof fn law_an_unknown_option_fires_nothing(v: VehicleComposition)
    requires
        v.sa_codes is None,
    ensures
        forall|i: int| 0 <= i < planned_jobs(v).len() ==> (#[trigger] planned_jobs(v)[i]).ecu@ != "D_KBM"@,
{
    reveal_strlit("D_KBM");
    reveal_strlit("FEM_20");
    reveal_strlit("FRM3");
    reveal_strlit("D_0066");
    reveal_strlit("ALC_60");
    reveal_strlit("D_LM");
    assert("D_KBM"@.len() == 5 && "FEM_20"@.len() == 6 && "FRM3"@.len() == 4 && "D_0066"@.len() == 6
        && "ALC_60"@.len() == 6 && "D_LM"@.len() == 4);
}

/// Whether the car has the ECU that a supplier job is addressed to: the variant itself, or the
/// variants and the option that stand for it.
pub open spec fn wants(v: VehicleComposition, ecu: Seq<char>) -> bool {
    ||| ecu == "FEM_20"@ && sgbd_present(v, "FEM_20"@)
    ||| ecu == "FRM3"@ && sgbd_present(v, "FRM3"@)
    ||| ecu == "D_KBM"@ && (sgbd_present(v, "FRM_70"@) || sgbd_present(v, "FRM_87"@))
        && sa_present(v, "524"@) == Some(true)
    ||| ecu == "D_0066"@ && group_present(v, "D_0066"@)
    ||| ecu == "ALC_60"@ && sgbd_present(v, "ALC_60"@)
    ||| ecu == "D_LM"@ && (sgbd_present(v, "LM_AHL"@) || sgbd_present(v, "LM_AHL_2"@))
}

proof fn lemma_stores_are_distinct()
    ensures
        seq!["FEM_20"@, "FRM3"@, "D_KBM"@, "D_0066"@, "ALC_60"@, "D_LM"@].no_duplicates(),
{
    reveal_strlit("FEM_20");
    reveal_strlit("FRM3");
    reveal_strlit("D_KBM");
    reveal_strlit("D_0066");
    reveal_strlit("ALC_60");
    reveal_strlit("D_LM");
    assert("FEM_20"@[0] != "D_0066"@[0] && "FEM_20"@[0] != "ALC_60"@[0]);
    assert("D_0066"@[0] != "ALC_60"@[0]);
    assert("FRM3"@[0] != "D_LM"@[0]);
    assert("FEM_20"@.len() == 6 && "D_0066"@.len() == 6 && "ALC_60"@.len() == 6);
    assert("FRM3"@.len() == 4 && "D_LM"@.len() == 4 && "D_KBM"@.len() == 5);
}

proof fn lemma_wants(v: VehicleComposition)
    ensures
        wants(v, "FEM_20"@) == gates_of(v).0,
        wants(v, "FRM3"@) == gates_of(v).1,
        wants(v, "D_KBM"@) == gates_of(v).2,
        wants(v, "D_0066"@) == gates_of(v).3,
        wants(v, "ALC_60"@) == gates_of(v).4,
        wants(v, "D_LM"@) == gates_of(v).5,
{
    lemma_stores_are_distinct();
    let names = seq!["FEM_20"@, "FRM3"@, "D_KBM"@, "D_0066"@, "ALC_60"@, "D_LM"@];
    assert(names[0] != names[1] && names[0] != names[2] && names[0] != names[3] && names[0]
        != names[4] && names[0] != names[5]);
    assert(names[1] != names[2] && names[1] != names[3] && names[1] != names[4] && names[1]
        != names[5]);
    assert(names[2] != names[3] && names[2] != names[4] && names[2] != names[5]);
    assert(names[3] != names[4] && names[3] != names[5] && names[4] != names[5]);
}

proof fn lemma_a_pair_is_kept_or_left(
    front: Seq<SupplierJob>,
    first: SupplierJob,
    second: SupplierJob,
    kept: spec_fn(SupplierJob) -> bool,
    open: bool,
)
    requires
        kept(first) == open,
        kept(second) == open,
    ensures
        (front + seq![first, second]).filter(kept) == front.filter(kept) + gated(
            open,
            first,
            second,
        ),
{
    let one = front.push(first);
    front.lemma_filter_push(first, kept);
    one.lemma_filter_push(second, kept);
    assert(front + seq![first, second] =~= one.push(second));
    assert(one.push(second).filter(kept) =~= front.filter(kept) + gated(open, first, second));
}

proof fn lemma_three_pairs(
    front: Seq<SupplierJob>,
    jobs: Seq<SupplierJob>,
    kept: spec_fn(SupplierJob) -> bool,
    a: bool,
    b: bool,
    c: bool,
)
    requires
        jobs.len() == 6,
        kept(jobs[0]) == a && kept(jobs[1]) == a,
        kept(jobs[2]) == b && kept(jobs[3]) == b,
        kept(jobs[4]) == c && kept(jobs[5]) == c,
    ensures
        (front + jobs).filter(kept) == front.filter(kept) + gated(a, jobs[0], jobs[1]) + gated(
            b,
            jobs[2],
            jobs[3],
        ) + gated(c, jobs[4], jobs[5]),
{
    let one = front + seq![jobs[0], jobs[1]];
    let two = one + seq![jobs[2], jobs[3]];
    lemma_a_pair_is_kept_or_left(front, jobs[0], jobs[1], kept, a);
    lemma_a_pair_is_kept_or_left(one, jobs[2], jobs[3], kept, b);
    lemma_a_pair_is_kept_or_left(two, jobs[4], jobs[5], kept, c);
    assert(front + jobs =~= two + seq![jobs[4], jobs[5]]);
}

/// The plan is the fixed list of twelve supplier clears, in its fixed order, with exactly those
/// left in whose ECU the car has.
pub proof fn law_the_plan_is_the_fixed_list_of_what_the_car_has(v: VehicleComposition)
    ensures
        planned_jobs(v) == seq![
            SupplierJob { ecu: "FEM_20", job: "IS_LOESCHEN_TMS", arg: "0x01" },
            SupplierJob { ecu: "FEM_20", job: "IS_LOESCHEN_TMS", arg: "0x02" },
            SupplierJob { ecu: "FRM3", job: "IS_LOESCHEN_TMS_L_LEAR", arg: "" },
            SupplierJob { ecu: "FRM3", job: "IS_LOESCHEN_TMS_R_LEAR", arg: "" },
            SupplierJob { ecu: "D_KBM", job: "IS_LOESCHEN_SMC_L_LEAR", arg: "" },
            SupplierJob { ecu: "D_KBM", job: "IS_LOESCHEN_SMC_R_LEAR", arg: "" },
            SupplierJob { ecu: "D_0066", job: "IS_LOESCHEN_SMC_L", arg: "" },
            SupplierJob { ecu: "D_0066", job: "IS_LOESCHEN_SMC_R", arg: "" },
            SupplierJob { ecu: "ALC_60", job: "IS_LOESCHEN_SMC_L_LEAR", arg: "" },
            SupplierJob { ecu: "ALC_60", job: "IS_LOESCHEN_SMC_R_LEAR", arg: "" },
            SupplierJob { ecu: "D_LM", job: "IS_LOESCHEN_SMC_L_LEAR", arg: "" },
            SupplierJob { ecu: "D_LM", job: "IS_LOESCHEN_SMC_R_LEAR", arg: "" },
        ].filter(|job: SupplierJob| wants(v, job.ecu@)),
{
    lemma_wants(v);
    let kept = |job: SupplierJob| wants(v, job.ecu@);
    let a0 = SupplierJob { ecu: "FEM_20", job: "IS_LOESCHEN_TMS", arg: "0x01" };
    let a1 = SupplierJob { ecu: "FEM_20", job: "IS_LOESCHEN_TMS", arg: "0x02" };
    let b0 = SupplierJob { ecu: "FRM3", job: "IS_LOESCHEN_TMS_L_LEAR", arg: "" };
    let b1 = SupplierJob { ecu: "FRM3", job: "IS_LOESCHEN_TMS_R_LEAR", arg: "" };
    let c0 = SupplierJob { ecu: "D_KBM", job: "IS_LOESCHEN_SMC_L_LEAR", arg: "" };
    let c1 = SupplierJob { ecu: "D_KBM", job: "IS_LOESCHEN_SMC_R_LEAR", arg: "" };
    let d0 = SupplierJob { ecu: "D_0066", job: "IS_LOESCHEN_SMC_L", arg: "" };
    let d1 = SupplierJob { ecu: "D_0066", job: "IS_LOESCHEN_SMC_R", arg: "" };
    let e0 = SupplierJob { ecu: "ALC_60", job: "IS_LOESCHEN_SMC_L_LEAR", arg: "" };
    let e1 = SupplierJob { ecu: "ALC_60", job: "IS_LOESCHEN_SMC_R_LEAR", arg: "" };
    let f0 = SupplierJob { ecu: "D_LM", job: "IS_LOESCHEN_SMC_L_LEAR", arg: "" };
    let f1 = SupplierJob { ecu: "D_LM", job: "IS_LOESCHEN_SMC_R_LEAR", arg: "" };
    let gates = gates_of(v);
    let none = Seq::<SupplierJob>::empty();
    let near = seq![a0, a1, b0, b1, c0, c1];
    let far = seq![d0, d1, e0, e1, f0, f1];
    lemma_three_pairs(none, near, kept, gates.0, gates.1, gates.2);
    lemma_three_pairs(none + near, far, kept, gates.3, gates.4, gates.5);
    assert(none.filter(kept) =~= none) by {
        reveal(Seq::filter);
    }
    assert(none + gated(gates.0, a0, a1) =~= gated(gates.0, a0, a1));
    assert(none + near + far =~= seq![a0, a1, b0, b1, c0, c1, d0, d1, e0, e1, f0, f1]);
    assert((none + near + far).filter(kept) == planned_jobs(v));
}

/// Every planned job is reported, in the order of the plan, as not run and with a reason.
pub proof fn law_a_planned_job_is_reported_as_not_run(v: VehicleComposition)
    ensures
        planned_reports(v).len() == planned_jobs(v).len(),
        forall|i: int|
            0 <= i < planned_jobs(v).len() ==> (#[trigger] planned_reports(v)[i]).job
                == planned_jobs(v)[i] && planned_reports(v)[i].not_run == Some(SUPPLIER_NOT_RUN@),
{
}

/// A variant is on the car if one that was identified has its name in whatever case, and only then.
pub proof fn law_a_variant_goes_by_its_name(v: VehicleComposition, name: Seq<char>, i: int)
    ensures
        0 <= i < v.sgbds@.len() && crate::text::upper(v.sgbds@[i]@) == crate::text::upper(name)
            ==> sgbd_present(v, name),
        (forall|j: int|
            0 <= j < v.sgbds@.len() ==> crate::text::upper((#[trigger] v.sgbds@[j])@)
                != crate::text::upper(name)) ==> !sgbd_present(v, name),
{
    let names = crate::text::text_views(v.sgbds@);
    if 0 <= i < v.sgbds@.len() && crate::text::upper(v.sgbds@[i]@) == crate::text::upper(name) {
        crate::text::law_only_case_is_ignored(v.sgbds@[i]@, name);
        assert(crate::text::same_ignoring_case(names[i], name));
    }
    if forall|j: int|
        0 <= j < v.sgbds@.len() ==> crate::text::upper((#[trigger] v.sgbds@[j])@)
            != crate::text::upper(name) {
        assert forall|j: int| 0 <= j < names.len() implies !crate::text::same_ignoring_case(
            #[trigger] names[j],
            name,
        ) by {
            crate::text::law_only_case_is_ignored(v.sgbds@[j]@, name);
            assert(names[j] == v.sgbds@[j]@);
        }
    }
}

/// An entry of the group list may name several groups, with bars between them and white space round
/// them; each of them is on the car, and no group that no entry names is.
pub proof fn law_a_group_entry_names_every_part(
    v: VehicleComposition,
    name: Seq<char>,
    i: int,
    parts: Seq<Seq<char>>,
    j: int,
)
    requires
        0 <= i < v.groups@.len(),
        0 <= j < parts.len(),
        forall|k: int| 0 <= k < parts.len() ==> !(#[trigger] parts[k]).contains('|'),
        v.groups@[i]@ == crate::text::join(parts, seq!['|']),
    ensures
        crate::text::upper(crate::text::trimmed(parts[j])) == crate::text::upper(name)
            ==> group_present(v, name),
        v.groups@.len() == 1 && (forall|k: int|
            0 <= k < parts.len() ==> crate::text::upper(
                crate::text::trimmed(#[trigger] parts[k]),
            ) != crate::text::upper(name)) ==> !group_present(v, name),
{
    crate::text::law_splitting_undoes_joining(parts, '|');
    let list = v.groups@[i]@;
    assert(crate::text::split(list, '|') == parts);
    if crate::text::upper(crate::text::trimmed(parts[j])) == crate::text::upper(name) {
        crate::text::law_only_case_is_ignored(crate::text::trimmed(parts[j]), name);
        assert(crate::text::same_ignoring_case(
            crate::text::trimmed(crate::text::split(list, '|')[j]),
            name,
        ));
        assert(listed_in(v.groups@[i]@, name));
    }
    if v.groups@.len() == 1 && (forall|k: int|
        0 <= k < parts.len() ==> crate::text::upper(crate::text::trimmed(#[trigger] parts[k]))
            != crate::text::upper(name)) {
        assert forall|k: int|
            0 <= k < crate::text::split(list, '|').len() implies !crate::text::same_ignoring_case(
            crate::text::trimmed(#[trigger] crate::text::split(list, '|')[k]),
            name,
        ) by {
            crate::text::law_only_case_is_ignored(crate::text::trimmed(parts[k]), name);
        }
        assert(!listed_in(v.groups@[0]@, name));
    }
}

/// The option list answers for itself: a listed code is there, whatever white space stands round
/// it, another is not, and without a list there is no answer.
pub proof fn law_an_option_is_there_if_it_is_listed(v: VehicleComposition, code: Seq<char>, i: int)
    ensures
        v.sa_codes is None <==> sa_present(v, code) is None,
        v.sa_codes matches Some(codes) ==> 0 <= i < codes@.len() ==> crate::text::trimmed(
            codes@[i]@,
        ) == code ==> sa_present(v, code) == Some(true),
        v.sa_codes matches Some(codes) ==> (forall|j: int|
            0 <= j < codes@.len() ==> crate::text::trimmed((#[trigger] codes@[j])@) != code)
            ==> sa_present(v, code) == Some(false),
{
}

/// The model of a value says of each field what the field holds, and a list is modelled item by
/// item, in order.
pub proof fn law_a_model_shows_what_its_value_holds(
    supplier_job_report: SupplierJobReport,
    reports: Seq<SupplierJobReport>,
)
    ensures
        supplier_job_report@.job == supplier_job_report.job,
        supplier_job_report@.not_run == crate::text::opt_view(supplier_job_report.not_run),
        reports_view(reports).len() == reports.len(),
        forall|i: int|
            0 <= i < reports.len() ==> #[trigger] reports_view(reports)[i] == reports[i]@,
{
}

} // verus!
