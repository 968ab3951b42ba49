//! Tests of invocations, preconditions and the service cycle.
use klartext::semantic::catalog::{FixedFunction, JobParameterEntry};
use klartext::semantic::service_function::Category;
use klartext::service::phase::{function_ids, invocations, Invocation, Phase};
use klartext::service::precondition::{
    blocks, defaults_for, evaluate, Precondition, PreconditionOutcome, Reading, Relation, Verdict,
};
use klartext::service::runner::{
    chosen_title, hold_for, Action, Cycle, Hold, ServiceReport, Teardown,
};

fn row(function_id: i64, phase: &str, position: i64, value: &str) -> JobParameterEntry {
    JobParameterEntry {
        function_id,
        function_en: Some("EXAMPLE fan: activation".to_string()),
        function_de: None,
        phase: Some(phase.to_string()),
        rank: None,
        position,
        value: Some(value.to_string()),
        label: None,
        job: "STEUERN_EXAMPLE".to_string(),
    }
}

#[test]
fn an_unranked_row_sorts_before_a_ranked_one_in_the_same_phase() {
    let mut unranked = row(11, "Main", 1, "FIRST");
    unranked.job = "DIAGNOSE_MODE".to_string();
    unranked.rank = None;
    let mut ranked = row(11, "Main", 1, "SECOND");
    ranked.job = "STEUERN_IO".to_string();
    ranked.rank = Some(1);
    let invs = invocations(&[ranked, unranked]);
    let order: Vec<&str> =
        invs.iter().filter(|i| i.phase == Phase::Main).map(|i| i.job.as_str()).collect();
    assert_eq!(order, vec!["DIAGNOSE_MODE", "STEUERN_IO"], "unranked must sort first");
}

#[test]
fn shuffled_input_still_groups_and_orders_correctly() {
    let rows = vec![
        row(9001, "Reset", 1, "0"),
        row(9001, "Main", 10, "FanArg"),
        row(9002, "Preset", 1, "PRE"),
        row(9001, "Main", 1, "3"),
        row(9001, "Main", 2, "JA"),
    ];
    let invs = invocations(&rows);
    assert_eq!(invs.len(), 3, "{invs:?}");
    let main = invs
        .iter()
        .find(|i| i.function_id == 9001 && i.phase == Phase::Main)
        .expect("a Main invocation for 9001");
    assert_eq!(main.arg_buffer(), "3;JA;FanArg");
    assert_eq!(
        invs.iter().filter(|i| i.function_id == 9001 && i.phase == Phase::Main).count(),
        1
    );
}

#[test]
fn groups_rows_into_ordered_invocations_per_function_and_phase() {
    let rows = vec![
        row(9001, "Main", 1, "3"),
        row(9001, "Main", 2, "JA"),
        row(9001, "Main", 10, "FanArg"),
        row(9001, "Reset", 1, "0"),
        row(9002, "Preset", 1, "PRE"),
    ];
    let invs = invocations(&rows);
    assert_eq!(invs.len(), 3);

    let main = invs.iter().find(|i| i.function_id == 9001 && i.phase == Phase::Main).unwrap();
    assert_eq!(main.arg_buffer(), "3;JA;FanArg");
    assert_eq!(main.title.as_deref(), Some("EXAMPLE fan: activation"));

    let reset = invs.iter().find(|i| i.function_id == 9001 && i.phase == Phase::Reset).unwrap();
    assert_eq!(reset.arg_buffer(), "0");
    assert!(invs.iter().any(|i| i.phase == Phase::Preset));
}

fn bare(function_id: i64, phase: Phase, arg: &str) -> Invocation {
    Invocation {
        function_id,
        title: None,
        phase,
        job: "STEUERN_EXAMPLE".to_string(),
        rank: None,
        args: vec![arg.to_string()],
    }
}

#[test]
fn function_ids_are_deduped_and_ascending() {
    let invs = vec![
        bare(9003, Phase::Main, "A"),
        bare(9003, Phase::Reset, "B"),
        bare(9001, Phase::Main, "C"),
        bare(9002, Phase::Main, "D"),
        bare(9001, Phase::Reset, "E"),
    ];
    assert_eq!(function_ids(&invs), vec![9001, 9002, 9003]);
    assert!(function_ids(&[]).is_empty());
}

#[test]
fn unknown_or_missing_phase_is_treated_as_main() {
    let mut r = row(9003, "Main", 1, "X");
    r.phase = None;
    assert_eq!(invocations(&[r])[0].phase, Phase::Main);
    assert_eq!(Phase::from_catalog(Some("Unbekannt")), Phase::Main);
}

#[test]
fn a_row_with_no_value_contributes_an_empty_argument() {
    let mut r = row(9004, "Main", 1, "X");
    r.value = None;
    let mut r2 = row(9004, "Main", 2, "Y");
    r2.function_en = None;
    assert_eq!(invocations(&[r, r2])[0].arg_buffer(), ";Y");
}

#[test]
fn a_phase_with_two_jobs_yields_two_invocations_in_rank_order() {
    let rows = vec![
        JobParameterEntry {
            function_id: 5,
            function_en: Some("Fan".into()),
            function_de: None,
            phase: Some("Main".into()),
            rank: Some(2),
            position: 1,
            value: Some("ON".into()),
            label: None,
            job: "STEUERN_IO".into(),
        },
        JobParameterEntry {
            function_id: 5,
            function_en: Some("Fan".into()),
            function_de: None,
            phase: Some("Main".into()),
            rank: Some(1),
            position: 1,
            value: Some("DIAG".into()),
            label: None,
            job: "DIAGNOSE_MODE".into(),
        },
    ];
    let invs = invocations(&rows);
    let main: Vec<(&str, String)> = invs
        .iter()
        .filter(|i| i.phase == Phase::Main)
        .map(|i| (i.job.as_str(), i.arg_buffer()))
        .collect();
    assert_eq!(
        main,
        vec![("DIAGNOSE_MODE", "DIAG".to_string()), ("STEUERN_IO", "ON".to_string())]
    );
}

#[test]
fn the_same_job_at_two_ranks_is_two_sequential_runs_not_one_buffer() {
    let rows = vec![
        JobParameterEntry {
            function_id: 7,
            function_en: None,
            function_de: None,
            phase: Some("Main".into()),
            rank: Some(1),
            position: 1,
            value: Some("A".into()),
            label: None,
            job: "STEUERN_LAMPEN".into(),
        },
        JobParameterEntry {
            function_id: 7,
            function_en: None,
            function_de: None,
            phase: Some("Main".into()),
            rank: Some(2),
            position: 1,
            value: Some("B".into()),
            label: None,
            job: "STEUERN_LAMPEN".into(),
        },
    ];
    let mains: Vec<String> = invocations(&rows)
        .iter()
        .filter(|i| i.phase == Phase::Main)
        .map(|i| i.arg_buffer())
        .collect();
    assert_eq!(mains, vec!["A".to_string(), "B".to_string()], "two ranks, two runs");
}

#[test]
fn invocations_follow_preset_main_reset() {
    let rows =
        [row(1, "Reset", 1, "OFF"), row(1, "Main", 1, "GO"), row(1, "Preset", 1, "PRE")];
    let phases: Vec<Phase> = invocations(&rows).iter().map(|i| i.phase).collect();
    assert_eq!(phases, vec![Phase::Preset, Phase::Main, Phase::Reset]);
}

fn job_row(job: &str, rank: Option<i64>, position: i64, value: &str) -> JobParameterEntry {
    let mut r = row(1, "Main", position, value);
    r.function_en = None;
    r.job = job.to_string();
    r.rank = rank;
    r
}

fn runs(rows: &[JobParameterEntry]) -> Vec<(String, Vec<String>)> {
    invocations(rows).into_iter().map(|i| (i.job, i.args)).collect()
}

#[test]
fn two_jobs_of_one_phase_are_two_whole_runs_in_arrival_order() {
    let rows = [
        job_row("A", None, 1, "a1"),
        job_row("A", None, 2, "a2"),
        job_row("B", None, 1, "b1"),
        job_row("B", None, 2, "b2"),
    ];
    let expected = vec![
        ("A".to_string(), vec!["a1".to_string(), "a2".to_string()]),
        ("B".to_string(), vec!["b1".to_string(), "b2".to_string()]),
    ];
    assert_eq!(runs(&rows), expected);
    let interleaved =
        [rows[0].clone(), rows[2].clone(), rows[3].clone(), rows[1].clone()];
    assert_eq!(runs(&interleaved), expected);
    let first = &invocations(&rows)[0];
    assert_eq!((first.function_id, first.rank, first.title.as_deref()), (1, None, None));
}

#[test]
fn an_unranked_run_comes_before_even_the_lowest_rank() {
    let rows = [job_row("RANKED", Some(i64::MIN), 0, "r"), job_row("PLAIN", None, 9, "p")];
    let jobs: Vec<String> = runs(&rows).into_iter().map(|(job, _)| job).collect();
    assert_eq!(jobs, vec!["PLAIN", "RANKED"]);
}

#[test]
fn shuffled_rows_of_ranked_jobs_give_the_same_invocations() {
    let rows = [
        job_row("A", Some(1), 1, "a1"),
        job_row("A", Some(1), 2, "a2"),
        job_row("B", Some(2), 1, "b1"),
        job_row("A", Some(3), 1, "a3"),
    ];
    let mut shuffled = rows.to_vec();
    shuffled.reverse();
    assert_eq!(invocations(&shuffled), invocations(&rows));
    assert_eq!(invocations(&rows).len(), 3);
}

#[test]
fn an_argument_without_a_title_does_not_hide_a_later_one() {
    let mut titled = job_row("A", None, 2, "a2");
    titled.function_de = Some(" Luefter ".to_string());
    let found = invocations(&[job_row("A", None, 1, "a1"), titled]);
    assert_eq!(found[0].title.as_deref(), Some("Luefter"));
}

/// What a table of values reads for a precondition.
fn reading(table: &[(&str, f64)], precondition: Precondition) -> Reading {
    let name = precondition.measurement();
    match table.iter().find(|(n, _)| *n == name) {
        Some((_, value)) => {
            let limit = precondition.threshold() as f64 / 1000.0;
            let relation = if *value < limit {
                Relation::Less
            } else if *value > limit {
                Relation::Greater
            } else if *value == limit {
                Relation::Equal
            } else {
                Relation::Unordered
            };
            Reading::Read { relation, text: format!("{value}") }
        }
        None => Reading::Unreadable { why: format!("no measurement '{name}'") },
    }
}

fn checked(table: &[(&str, f64)], preconditions: &[Precondition]) -> Vec<PreconditionOutcome> {
    let readings: Vec<Reading> = preconditions.iter().map(|p| reading(table, *p)).collect();
    evaluate(preconditions, &readings)
}

#[test]
fn a_satisfied_precondition_passes() {
    let out = checked(&[("RPM", 800.0)], &[Precondition::EngineRunning]);
    assert_eq!(out[0].verdict, Verdict::Passed);
    assert!(!blocks(&out));
}

#[test]
fn a_violated_precondition_blocks_and_reports_the_measured_value() {
    let out = checked(&[("RPM", 0.0)], &[Precondition::EngineRunning]);
    assert_eq!(out[0].verdict, Verdict::Failed);
    assert_eq!(out[0].measured.as_deref(), Some("0"));
    assert_eq!(out[0].detail.as_deref(), Some("the engine must be running (measured 0)"));
    assert!(blocks(&out));
}

#[test]
fn an_unreadable_precondition_is_advisory_not_blocking() {
    let out = checked(&[], &[Precondition::EngineRunning]);
    assert_eq!(out[0].verdict, Verdict::Unverified);
    assert_eq!(
        out[0].detail.as_deref(),
        Some("could not check that the engine must be running: no measurement 'RPM'")
    );
    assert!(!blocks(&out), "unverifiable must NOT block");
}

#[test]
fn engine_off_and_running_are_genuinely_opposite() {
    assert_eq!(
        checked(&[("RPM", 800.0)], &[Precondition::EngineOff])[0].verdict,
        Verdict::Failed
    );
    assert_eq!(checked(&[("RPM", 0.0)], &[Precondition::EngineOff])[0].verdict, Verdict::Passed);
}

#[test]
fn threshold_preconditions_compare_in_the_right_direction() {
    let both = [Precondition::BatteryAbove(12_000), Precondition::CoolantBelow(90_000)];
    let out = checked(&[("UBATT", 11.4), ("TCO", 105.0)], &both);
    assert!(out.iter().all(|o| o.verdict == Verdict::Failed), "{out:?}");
    let out = checked(&[("UBATT", 12.6), ("TCO", 80.0)], &both);
    assert!(out.iter().all(|o| o.verdict == Verdict::Passed), "{out:?}");
}

#[test]
fn a_requirement_names_its_threshold() {
    assert_eq!(
        Precondition::BatteryAbove(12_000).requirement(),
        "battery voltage must exceed 12 V"
    );
    assert_eq!(
        Precondition::BatteryAbove(12_250).requirement(),
        "battery voltage must exceed 12.25 V"
    );
    assert_eq!(
        Precondition::CoolantBelow(-500).requirement(),
        "coolant must be below -0.5 °C"
    );
}

#[test]
fn a_reading_that_is_no_number_satisfies_only_the_ignition() {
    assert!(Precondition::TerminalOn.satisfied_by(Relation::Unordered));
    assert!(!Precondition::EngineOff.satisfied_by(Relation::Unordered));
    assert!(!Precondition::EngineRunning.satisfied_by(Relation::Unordered));
    assert!(!Precondition::VehicleStationary.satisfied_by(Relation::Unordered));
}

#[test]
fn actuation_defaults_are_stricter_than_a_counter_reset() {
    let actuation = defaults_for(Category::ActuatorControl);
    let reset = defaults_for(Category::CbsReset);
    assert!(actuation.len() > reset.len(), "actuation {actuation:?} vs reset {reset:?}");
    assert!(actuation.contains(&Precondition::TerminalOn));
    assert!(actuation.iter().any(|p| matches!(p, Precondition::BatteryAbove(_))));
}

fn fixed(activation: Option<i64>, duration: Option<i64>) -> FixedFunction {
    FixedFunction {
        function_id: 1,
        activation,
        activation_duration_ms: duration,
        preparing_text: None,
        processing_text: None,
        post_text: None,
    }
}

#[test]
fn hold_for_covers_all_three_arms() {
    let timed = fixed(Some(1), Some(5000));
    assert_eq!(hold_for(Some(&timed), true), Hold::Timed(5000));
    let held = fixed(Some(0), None);
    assert_eq!(hold_for(Some(&held), true), Hold::UntilStop);
    assert_eq!(hold_for(Some(&timed), false), Hold::Immediate);
    assert_eq!(hold_for(None, false), Hold::Immediate);
    assert_eq!(hold_for(None, true), Hold::UntilStop);
}

/// Drive a cycle: every job and wait in order, the named argument failing, and the report.
fn drive(mut cycle: Cycle, fail_on: Option<&str>) -> (Vec<String>, ServiceReport) {
    let mut log = Vec::new();
    loop {
        match cycle.next() {
            Action::Run { job, args } => {
                log.push(format!("{job}({args})"));
                let failed = match fail_on {
                    Some(f) => args.contains(f),
                    None => false,
                };
                cycle.record(if failed { Some("boom".to_string()) } else { None });
            }
            Action::Sleep(ms) => {
                log.push(format!("sleep {ms}"));
                cycle.rested();
            }
            Action::Done => return (log, cycle.finish()),
        }
    }
}

const FN: i64 = 1;

fn inv(phase: Phase, arg: &str) -> Invocation {
    inv_named(FN, "EXAMPLE", "STEUERN_X", phase, arg)
}

fn inv_for(function_id: i64, title: &str, phase: Phase, arg: &str) -> Invocation {
    inv_named(function_id, title, "IO_STATUS_VORGEBEN", phase, arg)
}

fn inv_named(function_id: i64, title: &str, job: &str, phase: Phase, arg: &str) -> Invocation {
    Invocation {
        function_id,
        title: Some(title.to_string()),
        phase,
        job: job.to_string(),
        rank: None,
        args: vec![arg.to_string()],
    }
}

fn inv_job(
    function_id: i64,
    phase: Phase,
    rank: Option<i64>,
    job: &str,
    arg: &str,
) -> Invocation {
    Invocation {
        function_id,
        title: None,
        phase,
        job: job.to_string(),
        rank,
        args: vec![arg.to_string()],
    }
}

/// A cycle without preconditions.
fn cycle(
    function_id: i64,
    invs: &[Invocation],
    hold: Hold,
    fail_on: Option<&str>,
) -> (Vec<String>, ServiceReport) {
    drive(Cycle::run_service(function_id, invs, hold, Vec::new()), fail_on)
}

/// A cycle under the defaults of a category, with the values of a table.
fn guarded(
    table: &[(&str, f64)],
    function_id: i64,
    category: Category,
    invs: &[Invocation],
) -> (Vec<String>, ServiceReport) {
    let outcomes = checked(table, &defaults_for(category));
    drive(Cycle::run_service(function_id, invs, Hold::Immediate, outcomes), None)
}

#[test]
fn runs_preset_then_main_then_reset_in_order() {
    let (ran, report) = cycle(
        FN,
        &[inv(Phase::Main, "GO"), inv(Phase::Preset, "PRE"), inv(Phase::Reset, "OFF")],
        Hold::Immediate,
        None,
    );
    assert_eq!(ran, vec!["STEUERN_X(PRE)", "STEUERN_X(GO)", "STEUERN_X(OFF)"]);
    assert!(report.succeeded);
    assert_eq!(report.teardown, Teardown::Ran);
}

#[test]
fn reset_still_runs_when_main_fails() {
    let (ran, report) = cycle(
        FN,
        &[inv(Phase::Preset, "PRE"), inv(Phase::Main, "GO"), inv(Phase::Reset, "OFF")],
        Hold::Immediate,
        Some("GO"),
    );
    assert_eq!(
        ran,
        vec!["STEUERN_X(PRE)", "STEUERN_X(GO)", "STEUERN_X(OFF)"],
        "Reset must run after a failed Main"
    );
    assert!(!report.succeeded);
    assert_eq!(report.teardown, Teardown::Ran);
    assert!(report.phases.iter().any(|p| p.phase == Phase::Main && p.error.is_some()));
}

#[test]
fn a_failed_preset_skips_main_but_still_tears_down() {
    let (ran, report) = cycle(
        FN,
        &[inv(Phase::Preset, "PRE"), inv(Phase::Main, "GO"), inv(Phase::Reset, "OFF")],
        Hold::Immediate,
        Some("PRE"),
    );
    assert!(!ran.iter().any(|r| r.contains("GO")), "Main must not run: {ran:?}");
    assert!(ran.iter().any(|r| r.contains("OFF")), "Reset must run: {ran:?}");
    assert!(!report.succeeded);
    assert!(
        report.phases.iter().any(|p| p.phase == Phase::Preset && p.error.is_some()),
        "the Preset outcome must carry its error: {:?}",
        report.phases
    );
}

#[test]
fn a_failed_job_aborts_the_phase_but_still_tears_down() {
    let invs = vec![
        inv_job(5, Phase::Main, Some(1), "STEUERN_IO", "IO1"),
        inv_job(5, Phase::Main, Some(2), "STEUERN_IO", "IO2"),
        inv_job(5, Phase::Reset, Some(1), "STEUERN_IO_AUS", "OFF"),
    ];
    let (ran, report) = cycle(5, &invs, Hold::Immediate, Some("IO1"));
    assert!(ran.iter().any(|r| r.contains("IO1")), "{ran:?}");
    assert!(
        !ran.iter().any(|r| r.contains("IO2")),
        "rank 2 must not run after rank 1 fails: {ran:?}"
    );
    assert!(
        ran.iter().any(|r| r.contains("OFF")),
        "safe teardown must run on failure: {ran:?}"
    );
    assert!(!report.succeeded);
}

#[test]
fn a_timed_hold_is_awaited_before_the_teardown() {
    let invs = vec![
        inv_job(5, Phase::Main, Some(1), "STEUERN_IO", "ON"),
        inv_job(5, Phase::Reset, Some(1), "STEUERN_IO_AUS", "OFF"),
    ];
    let (log, report) = cycle(5, &invs, Hold::Timed(25), None);
    assert_eq!(log, vec!["STEUERN_IO(ON)", "sleep 25", "STEUERN_IO_AUS(OFF)"]);
    assert!(report.succeeded);
}

#[test]
fn an_until_stop_function_holds_and_defers_teardown() {
    let invs = vec![
        inv_job(5, Phase::Main, Some(1), "STEUERN_IO", "ON"),
        inv_job(5, Phase::Reset, Some(1), "STEUERN_IO_AUS", "OFF"),
    ];
    let (ran, report) = cycle(5, &invs, Hold::UntilStop, None);
    assert!(report.held, "an until-stop function must report it is holding");
    assert!(report.succeeded, "the actuation itself succeeded");
    assert_eq!(
        report.teardown,
        Teardown::Deferred,
        "the teardown is deferred, not run and not skipped"
    );
    assert!(
        !ran.iter().any(|r| r.contains("OFF")),
        "teardown must be DEFERRED, not run: {ran:?}"
    );
}

#[test]
fn a_cycle_without_a_main_phase_has_nothing_to_hold() {
    let invs = vec![
        inv_job(5, Phase::Preset, Some(1), "DIAGNOSE_MODE", "ON"),
        inv_job(5, Phase::Reset, Some(1), "STEUERN_IO_AUS", "OFF"),
    ];
    let (log, report) = cycle(5, &invs, Hold::UntilStop, None);
    assert_eq!(log, vec!["DIAGNOSE_MODE(ON)", "STEUERN_IO_AUS(OFF)"]);
    assert!(!report.held);
    assert_eq!(report.teardown, Teardown::Ran);
    let (log, report) = cycle(5, &invs, Hold::Timed(25), None);
    assert_eq!(log, vec!["DIAGNOSE_MODE(ON)", "STEUERN_IO_AUS(OFF)"]);
    assert!(report.succeeded);
}

#[test]
fn a_failed_until_stop_hold_tears_down_at_once_and_is_not_held() {
    let invs = vec![
        inv_job(5, Phase::Main, Some(1), "STEUERN_IO", "ON"),
        inv_job(5, Phase::Reset, Some(1), "STEUERN_IO_AUS", "OFF"),
    ];
    let (ran, report) = cycle(5, &invs, Hold::UntilStop, Some("ON"));
    assert!(!report.held, "a FAILED hold is torn down, never held");
    assert!(!report.succeeded);
    assert!(
        ran.iter().any(|r| r.contains("OFF")),
        "teardown must run at once on a failed hold: {ran:?}"
    );
    assert_eq!(report.teardown, Teardown::Ran);
}

#[test]
fn stop_service_runs_only_the_teardown() {
    let invs = vec![
        inv_job(5, Phase::Main, Some(1), "STEUERN_IO", "ON"),
        inv_job(5, Phase::Reset, Some(1), "STEUERN_IO_AUS", "OFF"),
    ];
    let (ran, report) = drive(Cycle::stop_service(5, &invs), None);
    assert_eq!(ran, vec!["STEUERN_IO_AUS(OFF)"]);
    assert_eq!(report.teardown, Teardown::Ran);
    assert!(!report.held, "a stop clears the hold");
    assert!(report.succeeded);
}

#[test]
fn teardown_failure_is_reported_not_swallowed() {
    let (_, report) = cycle(
        FN,
        &[inv(Phase::Main, "GO"), inv(Phase::Reset, "OFF")],
        Hold::Immediate,
        Some("OFF"),
    );
    assert!(matches!(report.teardown, Teardown::Failed(_)));
    assert!(!report.succeeded);
}

#[test]
fn a_function_with_no_reset_phase_reports_none_not_ran() {
    let (_, report) = cycle(FN, &[inv(Phase::Main, "GO")], Hold::Immediate, None);
    assert_eq!(report.teardown, Teardown::NotDefined);
    assert!(report.succeeded);
}

#[test]
fn only_the_requested_functions_phases_run() {
    let (ran, report) = cycle(
        2,
        &[
            inv_for(1, "Fan", Phase::Main, "FAN_ON"),
            inv_for(1, "Fan", Phase::Reset, "FAN_OFF"),
            inv_for(2, "Electric fuel pump", Phase::Main, "PUMP_ON"),
            inv_for(2, "Electric fuel pump", Phase::Reset, "PUMP_OFF"),
        ],
        Hold::Immediate,
        None,
    );
    assert_eq!(
        ran,
        vec!["IO_STATUS_VORGEBEN(PUMP_ON)", "IO_STATUS_VORGEBEN(PUMP_OFF)"],
        "only function 2's phases may reach the car"
    );
    assert_eq!(report.title.as_deref(), Some("Electric fuel pump"));
    assert!(report.succeeded);
}

#[test]
fn a_function_id_the_job_does_not_define_runs_nothing_and_fails() {
    let invs = [
        inv_for(1, "Fan", Phase::Main, "FAN_ON"),
        inv_for(2, "Electric fuel pump", Phase::Main, "PUMP_ON"),
    ];
    let (ran, report) = cycle(99, &invs, Hold::Immediate, None);
    assert!(ran.is_empty(), "nothing may be sent: {ran:?}");
    assert!(!report.succeeded, "an unmatched function is not a success");
    assert!(report.phases.is_empty());
    assert_eq!(report.title, None, "no function ran, so none may be named");
    assert_eq!(chosen_title(99, &invs), None);
}

#[test]
fn an_empty_invocation_list_is_not_a_success() {
    let (ran, report) = cycle(FN, &[], Hold::Immediate, None);
    assert!(!report.succeeded, "nothing ran, so nothing succeeded");
    assert!(ran.is_empty());
    assert_eq!(report.teardown, Teardown::NotDefined);
}

#[test]
fn a_violated_precondition_blocks_and_sends_nothing() {
    let (ran, report) = guarded(
        &[("KL15", 0.0), ("UBATT", 12.6), ("SPEED", 0.0)],
        FN,
        Category::ActuatorControl,
        &[inv(Phase::Main, "GO"), inv(Phase::Reset, "OFF")],
    );
    assert!(report.blocked);
    assert!(!report.succeeded);
    assert!(ran.is_empty(), "no frame may be sent: {ran:?}");
    assert_eq!(report.teardown, Teardown::NotDefined);
}

#[test]
fn satisfied_preconditions_let_the_cycle_run() {
    let (ran, report) = guarded(
        &[("KL15", 1.0), ("UBATT", 12.6), ("SPEED", 0.0)],
        FN,
        Category::ActuatorControl,
        &[inv(Phase::Main, "GO"), inv(Phase::Reset, "OFF")],
    );
    assert!(!report.blocked);
    assert!(report.succeeded);
    assert_eq!(ran, vec!["STEUERN_X(GO)", "STEUERN_X(OFF)"]);
    assert_eq!(report.preconditions.len(), defaults_for(Category::ActuatorControl).len());
    assert!(report.preconditions.iter().all(|p| p.verdict == Verdict::Passed));
}

#[test]
fn unverifiable_preconditions_do_not_block_but_are_reported() {
    let (ran, report) =
        guarded(&[], FN, Category::ActuatorControl, &[inv(Phase::Main, "GO")]);
    assert!(!report.blocked);
    assert!(report.succeeded);
    assert!(!ran.is_empty(), "the cycle must still run");
    assert_eq!(report.preconditions.len(), defaults_for(Category::ActuatorControl).len());
    assert!(
        report.preconditions.iter().all(|p| p.verdict == Verdict::Unverified),
        "{:?}",
        report.preconditions
    );
}

#[test]
fn a_violated_precondition_blocks_even_with_a_preset_phase_defined() {
    let (ran, report) = guarded(
        &[("KL15", 0.0), ("UBATT", 12.6), ("SPEED", 0.0)],
        FN,
        Category::ActuatorControl,
        &[inv(Phase::Preset, "PRE"), inv(Phase::Main, "GO"), inv(Phase::Reset, "OFF")],
    );
    assert!(report.blocked);
    assert!(ran.is_empty(), "not even Preset may run: {ran:?}");
}

#[test]
fn run_service_checks_the_passed_categorys_defaults_not_a_fixed_set() {
    let (ran, report) = guarded(
        &[("KL15", 1.0), ("UBATT", 10.0), ("SPEED", 50.0)],
        FN,
        Category::CbsReset,
        &[inv(Phase::Main, "RESET")],
    );
    assert!(
        !report.blocked,
        "CbsReset requires only TerminalOn: {:?}",
        report.preconditions
    );
    assert!(!ran.is_empty(), "the cycle must run");
}

#[test]
fn run_service_enforces_the_actuator_categorys_stricter_checks() {
    let (ran, report) = guarded(
        &[("KL15", 1.0), ("UBATT", 10.0), ("SPEED", 0.0)],
        FN,
        Category::ActuatorControl,
        &[inv(Phase::Main, "GO")],
    );
    assert!(
        report.blocked,
        "ActuatorControl's battery floor must be checked, not dropped: {:?}",
        report.preconditions
    );
    assert!(ran.is_empty(), "nothing may be sent");
}

#[test]
fn run_service_selects_the_function_too_not_just_run_cycle() {
    let (ran, report) = guarded(
        &[("KL15", 1.0)],
        2,
        Category::CbsReset,
        &[
            inv_for(1, "Fan", Phase::Main, "FAN_ON"),
            inv_for(2, "Electric fuel pump", Phase::Main, "PUMP_ON"),
        ],
    );
    assert_eq!(ran, vec!["IO_STATUS_VORGEBEN(PUMP_ON)"]);
    assert_eq!(report.title.as_deref(), Some("Electric fuel pump"));
}

#[test]
fn a_blocked_report_names_the_chosen_function_not_the_first() {
    let (_, report) = guarded(
        &[("KL15", 0.0)],
        2,
        Category::ActuatorControl,
        &[
            inv_for(1, "Fan", Phase::Main, "FAN_ON"),
            inv_for(2, "Electric fuel pump", Phase::Main, "PUMP_ON"),
        ],
    );
    assert!(report.blocked);
    assert_eq!(report.title.as_deref(), Some("Electric fuel pump"));
}

#[test]
fn a_blocked_report_still_names_the_function() {
    let (_, report) =
        guarded(&[("KL15", 0.0)], FN, Category::ActuatorControl, &[inv(Phase::Main, "GO")]);
    assert!(report.blocked);
    assert_eq!(report.title.as_deref(), Some("EXAMPLE"));
}
