//! Preconditions: safety checks before a service write, over measurements that can be read.
//!
//! A check that cannot be *resolved* is advisory and does not block: the human already confirmed,
//! and refusing because a lookup failed would be obstruction, not safety. Only a check that
//! resolves and *fails* blocks.
use vstd::prelude::*;
use crate::semantic::service_function::Category;
use crate::text::{decimal_chars, decimal_padded_chars, from_chars, push_chars, push_text};

verus! {

/// A condition that must hold before a service write runs. Thresholds are in thousandths.
#[derive(Debug, Clone, Copy, PartialEq, Eq, Structural)]
pub enum Precondition {
    /// The engine must be turning.
    EngineRunning,
    /// The engine must be stopped.
    EngineOff,
    /// Terminal 15 (ignition) must be on.
    TerminalOn,
    /// Battery voltage must exceed this many thousandths of a volt.
    BatteryAbove(i64),
    /// Coolant temperature must be below this many thousandths of a degree Celsius.
    CoolantBelow(i64),
    /// The vehicle must not be moving.
    VehicleStationary,
}

/// The result of checking one precondition.
#[derive(Debug, Clone, Copy, PartialEq, Eq, Structural)]
pub enum Verdict {
    /// Resolved and satisfied.
    Passed,
    /// Resolved and violated: this blocks.
    Failed,
    /// Could not be resolved; advisory only.
    Unverified,
}

/// How a measured value stands to a condition's threshold.
#[derive(Debug, Clone, Copy, PartialEq, Eq, Structural)]
pub enum Relation {
    Less,
    Equal,
    Greater,
    /// The measured value is not a number.
    Unordered,
}

/// What came of reading a condition's measurement.
#[derive(Debug, Clone, PartialEq, Eq)]
pub enum Reading {
    /// A value was read: how it stands to the threshold, and how it is written.
    Read { relation: Relation, text: String },
    /// It could not be read, and why.
    Unreadable { why: String },
}

/// One precondition's outcome, with the value behind it.
#[derive(Debug, Clone, PartialEq, Eq)]
pub struct PreconditionOutcome {
    /// Which condition was checked.
    pub precondition: Precondition,
    /// The verdict.
    pub verdict: Verdict,
    /// The measured value as it is written, when one was read.
    pub measured: Option<String>,
    /// Why it failed or could not be checked.
    pub detail: Option<String>,
}

/// What a [`PreconditionOutcome`] holds.
#[verifier::ext_equal]
pub struct OutcomeView {
    pub precondition: Precondition,
    pub verdict: Verdict,
    pub measured: Option<Seq<char>>,
    pub detail: Option<Seq<char>>,
}

impl View for PreconditionOutcome {
    type V = OutcomeView;

    open spec fn view(&self) -> OutcomeView {
        OutcomeView {
            precondition: self.precondition,
            verdict: self.verdict,
            measured: crate::text::opt_view(self.measured),
            detail: crate::text::opt_view(self.detail),
        }
    }
}

/// The views of outcomes.
pub open spec fn outcomes_view(v: Seq<PreconditionOutcome>) -> Seq<OutcomeView> {
    Seq::new(v.len(), |i: int| v[i]@)
}

/// The engine speed, in thousandths of a revolution per minute, from which an engine counts as
/// running: a cranking-speed floor, as a coasting-down engine still reports a few.
pub const RUNNING_SPEED: i64 = 300_000;

/// The battery voltage that an actuation demands, in thousandths of a volt.
pub const BATTERY_FLOOR: i64 = 12_000;

/// The measurement a condition reads.
pub open spec fn measurement_of(p: Precondition) -> &'static str {
    match p {
        Precondition::EngineRunning => "RPM",
        Precondition::EngineOff => "RPM",
        Precondition::TerminalOn => "KL15",
        Precondition::BatteryAbove(_) => "UBATT",
        Precondition::CoolantBelow(_) => "TCO",
        Precondition::VehicleStationary => "SPEED",
    }
}

/// The threshold of a condition, in thousandths.
pub open spec fn threshold_of(p: Precondition) -> i64 {
    match p {
        Precondition::EngineRunning => RUNNING_SPEED,
        Precondition::EngineOff => RUNNING_SPEED,
        Precondition::TerminalOn => 0,
        Precondition::BatteryAbove(v) => v,
        Precondition::CoolantBelow(v) => v,
        Precondition::VehicleStationary => 0,
    }
}

/// Whether a value that stands so to the threshold satisfies a condition.
pub open spec fn satisfied(p: Precondition, relation: Relation) -> bool {
    match p {
        Precondition::EngineRunning => relation == Relation::Greater || relation == Relation::Equal,
        Precondition::EngineOff => relation == Relation::Less,
        Precondition::TerminalOn => relation != Relation::Equal,
        Precondition::BatteryAbove(_) => relation == Relation::Greater,
        Precondition::CoolantBelow(_) => relation == Relation::Less,
        Precondition::VehicleStationary => relation == Relation::Equal,
    }
}

/// Whatever number is read, the engine is either running or off, and never both.
pub proof fn law_engine_off_and_running_are_opposite(relation: Relation)
    requires
        relation != Relation::Unordered,
    ensures
        satisfied(Precondition::EngineOff, relation) != satisfied(
            Precondition::EngineRunning,
            relation,
        ),
{
}

/// A number of thousandths in decimal notation, without trailing zeros.
pub open spec fn thousandths_text(n: int) -> Seq<char> {
    let size = if n < 0 {
        -n
    } else {
        n
    };
    let sign = if n < 0 {
        seq!['-']
    } else {
        Seq::<char>::empty()
    };
    let fraction = (size % 1000) as nat;
    sign + crate::text::decimal((size / 1000) as nat) + if fraction == 0 {
        Seq::<char>::empty()
    } else if fraction % 100 == 0 {
        seq!['.'] + crate::text::decimal_padded(fraction / 100, 1)
    } else if fraction % 10 == 0 {
        seq!['.'] + crate::text::decimal_padded(fraction / 10, 2)
    } else {
        seq!['.'] + crate::text::decimal_padded(fraction, 3)
    }
}

/// What a condition requires, in words.
pub open spec fn requirement_text(p: Precondition) -> Seq<char> {
    match p {
        Precondition::EngineRunning => "the engine must be running"@,
        Precondition::EngineOff => "the engine must be off"@,
        Precondition::TerminalOn => "the ignition (terminal 15) must be on"@,
        Precondition::BatteryAbove(v) => "battery voltage must exceed "@ + thousandths_text(v as int)
            + " V"@,
        Precondition::CoolantBelow(v) => "coolant must be below "@ + thousandths_text(v as int)
            + " \u{B0}C"@,
        Precondition::VehicleStationary => "the vehicle must be stationary"@,
    }
}

/// The outcome of a condition, given what came of reading its measurement.
pub open spec fn outcome_of(p: Precondition, reading: Reading) -> OutcomeView {
    match reading {
        Reading::Read { relation, text } => if satisfied(p, relation) {
            OutcomeView {
                precondition: p,
                verdict: Verdict::Passed,
                measured: Some(text@),
                detail: None,
            }
        } else {
            OutcomeView {
                precondition: p,
                verdict: Verdict::Failed,
                measured: Some(text@),
                detail: Some(requirement_text(p) + " (measured "@ + text@ + ")"@),
            }
        },
        Reading::Unreadable { why } => OutcomeView {
            precondition: p,
            verdict: Verdict::Unverified,
            measured: None,
            detail: Some("could not check that "@ + requirement_text(p) + ": "@ + why@),
        },
    }
}

/// The default conditions of a category.
pub open spec fn defaults_of(category: Category) -> Seq<Precondition> {
    match category {
        Category::ActuatorControl => seq![
            Precondition::TerminalOn,
            Precondition::BatteryAbove(BATTERY_FLOOR),
            Precondition::VehicleStationary,
        ],
        Category::Calibration => seq![
            Precondition::TerminalOn,
            Precondition::BatteryAbove(BATTERY_FLOOR),
        ],
        _ => seq![Precondition::TerminalOn],
    }
}

/// Whether a category resets something and moves nothing.
pub open spec fn is_reset(category: Category) -> bool {
    category == Category::CbsReset || category == Category::LearnedValueReset || category
        == Category::StatisticReset
}

/// The higher the blast radius of a category, the more it demands: every condition of a reset, of
/// whichever kind, is one of a calibration, and every one of a calibration is one of an actuation.
pub proof fn law_riskier_categories_demand_more(reset: Category)
    requires
        is_reset(reset),
    ensures
        forall|p: Precondition|
            #[trigger] defaults_of(reset).contains(p) ==> defaults_of(
                Category::Calibration,
            ).contains(p),
        forall|p: Precondition|
            #[trigger] defaults_of(Category::Calibration).contains(p) ==> defaults_of(
                Category::ActuatorControl,
            ).contains(p),
        defaults_of(reset).len() < defaults_of(Category::Calibration).len() < defaults_of(
            Category::ActuatorControl,
        ).len(),
{
    let calibration = defaults_of(Category::Calibration);
    let actuation = defaults_of(Category::ActuatorControl);
    assert(calibration[0] == Precondition::TerminalOn);
    assert(actuation[0] == Precondition::TerminalOn);
    assert(actuation[1] == calibration[1]);
}

impl Precondition {
    /// The measurement this condition reads.
    pub fn measurement(self) -> (r: &'static str)
        ensures
            r == measurement_of(self),
    {
        match self {
            Precondition::EngineRunning | Precondition::EngineOff => "RPM",
            Precondition::TerminalOn => "KL15",
            Precondition::BatteryAbove(_) => "UBATT",
            Precondition::CoolantBelow(_) => "TCO",
            Precondition::VehicleStationary => "SPEED",
        }
    }

    /// The value, in thousandths, that a measured value is held against.
    pub fn threshold(self) -> (r: i64)
        ensures
            r == threshold_of(self),
    {
        match self {
            Precondition::EngineRunning | Precondition::EngineOff => RUNNING_SPEED,
            Precondition::TerminalOn | Precondition::VehicleStationary => 0,
            Precondition::BatteryAbove(v) => v,
            Precondition::CoolantBelow(v) => v,
        }
    }

    /// Whether a value that stands so to [`Precondition::threshold`] satisfies the condition.
    pub fn satisfied_by(self, relation: Relation) -> (r: bool)
        ensures
            r == satisfied(self, relation),
    {
        match self {
            Precondition::EngineRunning => relation == Relation::Greater || relation
                == Relation::Equal,
            Precondition::EngineOff => relation == Relation::Less,
            Precondition::TerminalOn => relation != Relation::Equal,
            Precondition::BatteryAbove(_) => relation == Relation::Greater,
            Precondition::CoolantBelow(_) => relation == Relation::Less,
            Precondition::VehicleStationary => relation == Relation::Equal,
        }
    }

    /// Append what is required, in words.
    fn push_requirement(self, out: &mut Vec<char>)
        ensures
            final(out)@ == old(out)@ + requirement_text(self),
    {
        let ghost start = out@;
        match self {
            Precondition::EngineRunning => push_text(out, "the engine must be running"),
            Precondition::EngineOff => push_text(out, "the engine must be off"),
            Precondition::TerminalOn => push_text(out, "the ignition (terminal 15) must be on"),
            Precondition::BatteryAbove(v) => {
                push_text(out, "battery voltage must exceed ");
                push_thousandths(out, v);
                push_text(out, " V");
                assert(out@ =~= start + requirement_text(self));
            },
            Precondition::CoolantBelow(v) => {
                push_text(out, "coolant must be below ");
                push_thousandths(out, v);
                push_text(out, " \u{B0}C");
                assert(out@ =~= start + requirement_text(self));
            },
            Precondition::VehicleStationary => push_text(out, "the vehicle must be stationary"),
        }
    }

    /// A human explanation of what is required.
    pub fn requirement(self) -> (r: String)
        ensures
            r@ == requirement_text(self),
    {
        let mut out: Vec<char> = Vec::new();
        self.push_requirement(&mut out);
        assert(out@ =~= requirement_text(self));
        from_chars(out.as_slice())
    }
}

/// Append a number of thousandths in decimal notation.
fn push_thousandths(out: &mut Vec<char>, n: i64)
    ensures
        final(out)@ == old(out)@ + thousandths_text(n as int),
{
    let ghost start = out@;
    let size: u64 = if n < 0 {
        out.push('-');
        if n == i64::MIN {
            9_223_372_036_854_775_808
        } else {
            (-n) as u64
        }
    } else {
        n as u64
    };
    let whole = decimal_chars(size / 1000);
    push_chars(out, whole.as_slice());
    let fraction: u64 = size % 1000;
    if fraction != 0 {
        out.push('.');
        let digits = if fraction % 100 == 0 {
            decimal_padded_chars(fraction / 100, 1)
        } else if fraction % 10 == 0 {
            decimal_padded_chars(fraction / 10, 2)
        } else {
            decimal_padded_chars(fraction, 3)
        };
        push_chars(out, digits.as_slice());
    }
    assert(out@ =~= start + thousandths_text(n as int));
}

/// The default preconditions for a category, applied when nothing more specific is known.
///
/// Actuation is strictest: it moves a component, so it demands ignition, healthy voltage and a
/// stationary vehicle.
pub fn defaults_for(category: Category) -> (r: Vec<Precondition>)
    ensures
        r@ == defaults_of(category),
{
    let out: Vec<Precondition> = match category {
        Category::ActuatorControl => vec![
            Precondition::TerminalOn,
            Precondition::BatteryAbove(BATTERY_FLOOR),
            Precondition::VehicleStationary,
        ],
        Category::Calibration => vec![
            Precondition::TerminalOn,
            Precondition::BatteryAbove(BATTERY_FLOOR),
        ],
        Category::CbsReset | Category::LearnedValueReset | Category::StatisticReset => vec![
            Precondition::TerminalOn,
        ],
    };
    assert(out@ =~= defaults_of(category));
    out
}

/// The outcome of one precondition, from what came of reading its measurement.
pub fn judge(precondition: Precondition, reading: &Reading) -> (r: PreconditionOutcome)
    ensures
        r@ == outcome_of(precondition, *reading),
{
    match reading {
        Reading::Read { relation, text } => {
            if precondition.satisfied_by(*relation) {
                return PreconditionOutcome {
                    precondition,
                    verdict: Verdict::Passed,
                    measured: Some(text.clone()),
                    detail: None,
                };
            }
            let mut detail: Vec<char> = Vec::new();
            precondition.push_requirement(&mut detail);
            push_text(&mut detail, " (measured ");
            push_text(&mut detail, text.as_str());
            push_text(&mut detail, ")");
            assert(detail@ =~= requirement_text(precondition) + " (measured "@ + text@ + ")"@);
            PreconditionOutcome {
                precondition,
                verdict: Verdict::Failed,
                measured: Some(text.clone()),
                detail: Some(from_chars(detail.as_slice())),
            }
        },
        Reading::Unreadable { why } => {
            let mut detail: Vec<char> = Vec::new();
            push_text(&mut detail, "could not check that ");
            precondition.push_requirement(&mut detail);
            push_text(&mut detail, ": ");
            push_text(&mut detail, why.as_str());
            assert(detail@ =~= "could not check that "@ + requirement_text(precondition) + ": "@
                + why@);
            PreconditionOutcome {
                precondition,
                verdict: Verdict::Unverified,
                measured: None,
                detail: Some(from_chars(detail.as_slice())),
            }
        },
    }
}

/// The outcomes of conditions, each with what came of reading it.
pub open spec fn outcomes_of(preconditions: Seq<Precondition>, readings: Seq<Reading>) -> Seq<
    OutcomeView,
> {
    Seq::new(preconditions.len(), |i: int| outcome_of(preconditions[i], readings[i]))
}

/// Check each precondition against what came of reading its measurement.
pub fn evaluate(preconditions: &[Precondition], readings: &[Reading]) -> (r: Vec<
    PreconditionOutcome,
>)
    requires
        preconditions@.len() == readings@.len(),
    ensures
        outcomes_view(r@) == outcomes_of(preconditions@, readings@),
{
    let mut out: Vec<PreconditionOutcome> = Vec::new();
    let mut i: usize = 0;
    while i < preconditions.len()
        invariant
            i <= preconditions.len(),
            preconditions@.len() == readings@.len(),
            outcomes_view(out@) == outcomes_of(preconditions@, readings@).take(i as int),
        decreases preconditions.len() - i,
    {
        let ghost before = outcomes_view(out@);
        let outcome = judge(preconditions[i], &readings[i]);
        let ghost view = outcome@;
        out.push(outcome);
        assert(outcomes_view(out@) =~= before.push(view));
        assert(outcomes_of(preconditions@, readings@).take(i + 1) =~= before.push(view));
        i = i + 1;
    }
    assert(outcomes_of(preconditions@, readings@).take(i as int) =~= outcomes_of(
        preconditions@,
        readings@,
    ));
    out
}

/// Whether some outcome is a resolved failure.
pub open spec fn blocking(outcomes: Seq<OutcomeView>) -> bool {
    exists|i: int| 0 <= i < outcomes.len() && (#[trigger] outcomes[i]).verdict == Verdict::Failed
}

/// Whether any outcome blocks execution: only a *resolved* failure does.
pub fn blocks(outcomes: &[PreconditionOutcome]) -> (r: bool)
    ensures
        r == blocking(outcomes_view(outcomes@)),
{
    let ghost views = outcomes_view(outcomes@);
    let mut i: usize = 0;
    while i < outcomes.len()
        invariant
            i <= outcomes.len(),
            views == outcomes_view(outcomes@),
            forall|k: int| 0 <= k < i ==> (#[trigger] views[k]).verdict != Verdict::Failed,
        decreases outcomes.len() - i,
    {
        if outcomes[i].verdict == Verdict::Failed {
            assert(views[i as int].verdict == Verdict::Failed);
            return true;
        }
        i = i + 1;
    }
    false
}

/// What blocks is exactly a value that was read and violates its condition; what could not be
/// read never does.
pub proof fn law_only_a_resolved_failure_blocks(
    preconditions: Seq<Precondition>,
    readings: Seq<Reading>,
)
    requires
        preconditions.len() == readings.len(),
    ensures
        blocking(outcomes_of(preconditions, readings)) <==> exists|i: int|
            0 <= i < readings.len() && ((#[trigger] readings[i]) matches Reading::Read {
                relation,
                ..
            } && !satisfied(preconditions[i], relation)),
{
    let outcomes = outcomes_of(preconditions, readings);
    if blocking(outcomes) {
        let i = choose|i: int|
            0 <= i < outcomes.len() && (#[trigger] outcomes[i]).verdict == Verdict::Failed;
        assert(readings[i] matches Reading::Read { relation, .. } && !satisfied(
            preconditions[i],
            relation,
        ));
    }
    assert forall|i: int|
        0 <= i < readings.len() && ((#[trigger] readings[i]) matches Reading::Read { relation, .. }
            && !satisfied(preconditions[i], relation)) implies blocking(outcomes) by {
        assert(outcomes[i].verdict == Verdict::Failed);
    }
}

// ---------------------------------------------------------------------------
// What the conditions amount to
// ---------------------------------------------------------------------------

/// How a number stands to another.
pub open spec fn relation_to(value: int, threshold: int) -> Relation {
    if value < threshold {
        Relation::Less
    } else if value == threshold {
        Relation::Equal
    } else {
        Relation::Greater
    }
}

/// What each condition says of the value that was read, in thousandths: the engine runs from three
/// hundred revolutions on and is off below, the ignition is on unless it reads zero, the battery is
/// above its floor, the coolant below its ceiling, and the vehicle stands only if its speed is
/// zero.
pub proof fn law_a_condition_is_about_the_value(value: int, limit: i64)
    ensures
        satisfied(
            Precondition::EngineRunning,
            relation_to(value, threshold_of(Precondition::EngineRunning) as int),
        ) <==> value >= 300_000,
        satisfied(
            Precondition::EngineOff,
            relation_to(value, threshold_of(Precondition::EngineOff) as int),
        ) <==> value < 300_000,
        satisfied(
            Precondition::TerminalOn,
            relation_to(value, threshold_of(Precondition::TerminalOn) as int),
        ) <==> value != 0,
        satisfied(
            Precondition::BatteryAbove(limit),
            relation_to(value, threshold_of(Precondition::BatteryAbove(limit)) as int),
        ) <==> value > limit,
        satisfied(
            Precondition::CoolantBelow(limit),
            relation_to(value, threshold_of(Precondition::CoolantBelow(limit)) as int),
        ) <==> value < limit,
        satisfied(
            Precondition::VehicleStationary,
            relation_to(value, threshold_of(Precondition::VehicleStationary) as int),
        ) <==> value == 0,
{
}

/// A reading that is not a number equals no number and lies on no side of one: all it can say is
/// that the ignition does not read zero.
pub proof fn law_not_a_number_satisfies_no_comparison(p: Precondition)
    ensures
        satisfied(p, Relation::Unordered) <==> p == Precondition::TerminalOn,
{
}

/// Each condition is held against the reading it is about.
pub proof fn law_a_condition_reads_its_own_measurement(limit: i64)
    ensures
        measurement_of(Precondition::EngineRunning) == "RPM",
        measurement_of(Precondition::EngineOff) == "RPM",
        measurement_of(Precondition::TerminalOn) == "KL15",
        measurement_of(Precondition::BatteryAbove(limit)) == "UBATT",
        measurement_of(Precondition::CoolantBelow(limit)) == "TCO",
        measurement_of(Precondition::VehicleStationary) == "SPEED",
{
}

/// A reading passes or fails by its value alone and keeps its words; one that could not be taken
/// is neither, and keeps why. A condition that passed has nothing to explain.
pub proof fn law_an_outcome_says_what_was_read(p: Precondition, relation: Relation, text: String)
    ensures
        outcome_of(p, Reading::Read { relation, text }).precondition == p,
        outcome_of(p, Reading::Read { relation, text }).measured == Some(text@),
        outcome_of(p, Reading::Read { relation, text }).verdict == (if satisfied(p, relation) {
            Verdict::Passed
        } else {
            Verdict::Failed
        }),
        outcome_of(p, Reading::Read { relation, text }).detail is None <==> satisfied(p, relation),
        outcome_of(p, Reading::Unreadable { why: text }).precondition == p,
        outcome_of(p, Reading::Unreadable { why: text }).verdict == Verdict::Unverified,
        outcome_of(p, Reading::Unreadable { why: text }).measured is None,
        outcome_of(p, Reading::Unreadable { why: text }).detail is Some,
{
}

/// The explanation of a failed condition is its requirement and what was measured; that of a
/// condition that could not be checked is its requirement and why.
pub proof fn law_an_explanation_names_requirement_and_reading(
    p: Precondition,
    relation: Relation,
    text: String,
)
    ensures
        !satisfied(p, relation) ==> outcome_of(p, Reading::Read { relation, text }).detail == Some(
            requirement_text(p) + " (measured "@ + text@ + ")"@,
        ),
        outcome_of(p, Reading::Unreadable { why: text }).detail == Some(
            "could not check that "@ + requirement_text(p) + ": "@ + text@,
        ),
        requirement_text(Precondition::EngineRunning) == "the engine must be running"@,
        requirement_text(Precondition::EngineOff) == "the engine must be off"@,
        requirement_text(Precondition::TerminalOn) == "the ignition (terminal 15) must be on"@,
        requirement_text(Precondition::VehicleStationary) == "the vehicle must be stationary"@,
        forall|v: i64| #[trigger]
            requirement_text(Precondition::BatteryAbove(v)) == "battery voltage must exceed "@
                + thousandths_text(v as int) + " V"@,
        forall|v: i64| #[trigger]
            requirement_text(Precondition::CoolantBelow(v)) == "coolant must be below "@
                + thousandths_text(v as int) + " \u{B0}C"@,
{
}

/// Whether a reading was taken and stands so to the threshold that its condition fails.
pub open spec fn reads(reading: Reading, relation: Relation) -> bool {
    reading matches Reading::Read { relation: read, .. } && read == relation
}

/// An actuation is refused exactly where the ignition reads zero, the battery reads twelve volts
/// or less or no number, or the speed reads anything but zero. Whatever could not be read refuses
/// nothing.
pub proof fn law_an_actuation_needs_ignition_voltage_and_a_standing_car(readings: Seq<Reading>)
    requires
        readings.len() == 3,
    ensures
        defaults_of(Category::ActuatorControl).len() == 3,
        measurement_of(defaults_of(Category::ActuatorControl)[0]) == "KL15",
        measurement_of(defaults_of(Category::ActuatorControl)[1]) == "UBATT",
        measurement_of(defaults_of(Category::ActuatorControl)[2]) == "SPEED",
        threshold_of(defaults_of(Category::ActuatorControl)[1]) == 12_000,
        blocking(outcomes_of(defaults_of(Category::ActuatorControl), readings)) <==> reads(
            readings[0],
            Relation::Equal,
        ) || (readings[1] is Read && !reads(readings[1], Relation::Greater)) || (readings[2] is Read
            && !reads(readings[2], Relation::Equal)),
{
    let conditions = defaults_of(Category::ActuatorControl);
    let outcomes = outcomes_of(conditions, readings);
    assert(outcomes.len() == 3);
    if blocking(outcomes) {
        let i = choose|i: int|
            0 <= i < outcomes.len() && (#[trigger] outcomes[i]).verdict == Verdict::Failed;
        assert(i == 0 || i == 1 || i == 2);
    }
    assert(outcomes[0] == outcome_of(Precondition::TerminalOn, readings[0]));
    assert(outcomes[1] == outcome_of(Precondition::BatteryAbove(12_000), readings[1]));
    assert(outcomes[2] == outcome_of(Precondition::VehicleStationary, readings[2]));
}

/// A calibration is refused exactly where the ignition reads zero, or the battery reads twelve
/// volts or less or no number; a reset exactly where the ignition reads zero.
pub proof fn law_a_calibration_needs_ignition_and_voltage(readings: Seq<Reading>, reset: Category)
    requires
        readings.len() == 2,
        is_reset(reset),
    ensures
        defaults_of(Category::Calibration).len() == 2,
        measurement_of(defaults_of(Category::Calibration)[0]) == "KL15",
        measurement_of(defaults_of(Category::Calibration)[1]) == "UBATT",
        threshold_of(defaults_of(Category::Calibration)[1]) == 12_000,
        blocking(outcomes_of(defaults_of(Category::Calibration), readings)) <==> reads(
            readings[0],
            Relation::Equal,
        ) || (readings[1] is Read && !reads(readings[1], Relation::Greater)),
        is_reset(Category::CbsReset) && is_reset(Category::LearnedValueReset) && is_reset(
            Category::StatisticReset,
        ),
        defaults_of(reset).len() == 1,
        measurement_of(defaults_of(reset)[0]) == "KL15",
        blocking(outcomes_of(defaults_of(reset), readings.take(1))) <==> reads(
            readings[0],
            Relation::Equal,
        ),
{
    let outcomes = outcomes_of(defaults_of(Category::Calibration), readings);
    let few = outcomes_of(defaults_of(reset), readings.take(1));
    if blocking(outcomes) {
        let i = choose|i: int|
            0 <= i < outcomes.len() && (#[trigger] outcomes[i]).verdict == Verdict::Failed;
        assert(i == 0 || i == 1);
    }
    if blocking(few) {
        let i = choose|i: int|
            0 <= i < few.len() && (#[trigger] few[i]).verdict == Verdict::Failed;
        assert(i == 0);
    }
    assert(outcomes[0] == outcome_of(Precondition::TerminalOn, readings[0]));
    assert(outcomes[1] == outcome_of(Precondition::BatteryAbove(12_000), readings[1]));
    assert(few[0] == outcome_of(Precondition::TerminalOn, readings[0]));
}

/// Whether `digits`, behind a point, write this many thousandths: as many digits as are needed, and
/// no zero at the end.
pub open spec fn writes_thousandths(digits: Seq<char>, fraction: int) -> bool {
    &&& digits.len() == 1 || digits.len() == 2 || digits.len() == 3
    &&& digits.last() != '0'
    &&& crate::text::unsigned_value(digits, 10, 999) matches Some(n) && fraction == n * (
    if digits.len() == 3 {
        1int
    } else if digits.len() == 2 {
        10
    } else {
        100
    })
}

/// Thousandths are written as a sign, the whole part, and the thousandths that are left, if any,
/// behind a point.
pub proof fn law_thousandths_are_written_exactly(n: int, whole: nat, fraction: nat)
    requires
        fraction < 1000,
        n == whole * 1000 + fraction || n == -(whole * 1000 + fraction),
    ensures
        ({
            let sign = if n < 0 {
                seq!['-']
            } else {
                Seq::<char>::empty()
            };
            let front = sign + crate::text::decimal(whole);
            let rest = thousandths_text(n).skip(front.len() as int);
            &&& thousandths_text(n).take(front.len() as int) == front
            &&& (fraction == 0 ==> rest.len() == 0)
            &&& (fraction != 0 ==> rest.len() > 0 && rest[0] == '.' && writes_thousandths(
                rest.skip(1),
                fraction as int,
            ))
        }),
{
    let sign = if n < 0 {
        seq!['-']
    } else {
        Seq::<char>::empty()
    };
    let front = sign + crate::text::decimal(whole);
    let size = if n < 0 {
        -n
    } else {
        n
    };
    assert(size / 1000 == whole && size % 1000 == fraction);
    let text = thousandths_text(n);
    assert(text.take(front.len() as int) =~= front);
    let rest = text.skip(front.len() as int);
    if fraction != 0 {
        let part: nat = if fraction % 100 == 0 {
            fraction / 100
        } else if fraction % 10 == 0 {
            fraction / 10
        } else {
            fraction
        };
        let width: nat = if fraction % 100 == 0 {
            1
        } else if fraction % 10 == 0 {
            2
        } else {
            3
        };
        let digits = crate::text::decimal_padded(part, width);
        assert(rest =~= seq!['.'] + digits);
        assert(rest.skip(1) =~= digits);
        crate::text::law_padded_decimals_read_back(part, width, 999);
        lemma_decimal_of(part, width);
        assert(digits.last() == crate::text::decimal(part).last());
    }
}

proof fn lemma_decimal_of(n: nat, width: nat)
    requires
        n % 10 != 0,
        width == 1 && n < 10 || width == 2 && n < 100 || width == 3 && n < 1000,
    ensures
        0 < crate::text::decimal(n).len() <= width,
        crate::text::decimal(n).last() != '0',
{
    reveal_with_fuel(crate::text::decimal, 4);
}

/// The model of a value says of each field what the field holds, and a list is modelled item by
/// item, in order.
pub proof fn law_a_model_shows_what_its_value_holds(
    precondition_outcome: PreconditionOutcome,
    outcomes: Seq<PreconditionOutcome>,
)
    ensures
        precondition_outcome@.precondition == precondition_outcome.precondition,
        precondition_outcome@.verdict == precondition_outcome.verdict,
        precondition_outcome@.measured == crate::text::opt_view(precondition_outcome.measured),
        precondition_outcome@.detail == crate::text::opt_view(precondition_outcome.detail),
        outcomes_view(outcomes).len() == outcomes.len(),
        forall|i: int|
            0 <= i < outcomes.len() ==> #[trigger] outcomes_view(outcomes)[i] == outcomes[i]@,
{
}

} // verus!
