use hs_loop::mission_time::Decomposition;
use hs_loop::publication::{
    build_envelope, envelope_verdict, gate_verdict, isolate_failures, isolate_plan, sum_into, verdict_str,
    ArmReport, IsolateDraw, Publication, ReportFigures, TaskRun, Verdict, OPERATIONALIZATION,
};

fn steps(n: u64) -> Decomposition {
    let mut d = Decomposition::default();
    d.n_steps = n;
    d
}

fn task(mission: &str, attempts: &[u64], passed: bool) -> TaskRun {
    TaskRun {
        mission: mission.to_string(),
        attempts: attempts.iter().map(|&n| steps(n)).collect(),
        passed,
        restarts: attempts.len().saturating_sub(1) as u64,
    }
}

#[test]
fn failed_attempts_are_paid_twice() {
    assert_eq!(task("task-1", &[6, 6, 3], true).raw_steps_paid(), 27);
    assert_eq!(task("task-1", &[3], true).raw_steps_paid(), 3);
    assert_eq!(task("task-1", &[], false).raw_steps_paid(), 0);
}

#[test]
fn the_gate_is_two_x() {
    assert_eq!(gate_verdict(18, 9), Verdict::Win);
    assert_eq!(gate_verdict(17, 9), Verdict::Lose);
    assert_eq!(gate_verdict(5, 0), Verdict::Lose);
    assert_eq!(verdict_str(Verdict::Win), "WIN");
    assert_eq!(verdict_str(Verdict::Lose), "LOSE");
    assert_eq!(envelope_verdict(3, 2, 1, 100), Verdict::Win);
    assert_eq!(envelope_verdict(2, 2, 20, 10), Verdict::Win);
    assert_eq!(envelope_verdict(2, 2, 19, 10), Verdict::Lose);
    assert_eq!(envelope_verdict(1, 2, 100, 1), Verdict::Lose);
}

#[test]
fn decompositions_sum_termwise() {
    let mut acc = steps(2);
    acc.wall_ms = 10;
    let mut d = steps(3);
    d.t_model_ms = 7;
    d.unattributed_ms = -4;
    sum_into(&mut acc, &d);
    assert_eq!((acc.n_steps, acc.t_model_ms, acc.wall_ms, acc.unattributed_ms), (5, 7, 10, -4));
}

#[test]
fn arms_book_their_tasks() {
    let mut arm = ArmReport::named("incumbent".to_string());
    arm.record_task(task("task-1", &[6, 3], true));
    arm.record_task(task("task-2", &[6, 6], false));
    assert_eq!(arm.raw_steps, 21);
    assert_eq!(arm.priced_steps, 15 + 18);
    assert_eq!(arm.restarts, 2);
    assert_eq!(arm.passed, 1);
    assert_eq!(arm.total.n_steps, 21);
    assert_eq!(arm.tasks.len(), 2);
}

#[test]
fn isolate_draws() {
    assert_eq!(isolate_failures(1, 0, 2), 31 % 3);
    assert_eq!(isolate_failures(3, 2, 0), 0);
    assert_eq!(isolate_failures(4, 5, 4), (4 * 31 + 5 * 17) % 5);
    assert_eq!(isolate_plan(IsolateDraw::Uniform, 1, 0, 2, 2), (1, false));
    assert_eq!(isolate_plan(IsolateDraw::Specialist, 1, 0, 2, 2), (3, true));
    assert_eq!(isolate_plan(IsolateDraw::Specialist, 1, 2, 2, 2), (0, false));
}

#[test]
fn envelope_takes_the_best_isolate_per_task() {
    let mut a = ArmReport::named("isolate-0".to_string());
    a.record_task(task("task-1", &[4], true));
    a.record_task(task("task-2", &[6, 6], false));
    let mut b = ArmReport::named("isolate-1".to_string());
    b.record_task(task("task-1", &[4], true));
    b.record_task(task("task-2", &[6, 5], true));
    let env = build_envelope(&vec![a, b], 2);
    assert_eq!(env.tasks.len(), 2);
    assert_eq!((env.tasks[0].best_isolate, env.tasks[0].priced_steps, env.tasks[0].passed), (0, 4, true));
    assert_eq!((env.tasks[1].best_isolate, env.tasks[1].priced_steps, env.tasks[1].passed), (1, 17, true));
    assert_eq!(env.tasks[1].mission, "task-2");
    assert_eq!(env.priced_steps, 21);
    assert_eq!(env.passed, 2);
}

fn figures() -> ReportFigures {
    ReportFigures {
        speedup: "3.00".to_string(),
        incumbent_avg_model: "0.0".to_string(),
        incumbent_avg_overhead: "0.0".to_string(),
        hairspring_avg_model: "0.0".to_string(),
        hairspring_avg_overhead: "0.0".to_string(),
    }
}

#[test]
fn an_arm_block_lists_its_tasks_totals_and_decomposition() {
    let mut arm = ArmReport::named("incumbent".to_string());
    arm.record_task(task("task-1", &[6, 3], true));
    let lines = arm.report_lines("0.0", "0.0");
    assert_eq!(lines[0], "ARM incumbent:");
    assert_eq!(lines[1], "  task-1: attempts=2 restarts=1 passed=true steps_per_attempt=[6, 3]");
    assert_eq!(lines[2], "  totals: raw_steps=9 priced_steps=15 restarts=1 passed=1");
    assert_eq!(lines[3], "  full T_mission decomposition (summed over all attempts):");
    assert_eq!(lines[4], "    T_mission decomposition (measured from the mission's own event log, published per run, win or lose)");
    assert_eq!(lines[5], "    mission=incumbent");
    assert_eq!(lines[6], "    N_steps=9");
    assert_eq!(lines.len(), 4 + 11 + 1);
    assert_eq!(lines[15], "");
}

#[test]
fn the_publication_prints_header_arms_and_verdict() {
    let mut incumbent = ArmReport::named("incumbent".to_string());
    incumbent.record_task(task("task-1", &[], false));
    let hairspring = ArmReport::named("hairspring".to_string());
    let p = Publication {
        suite: "token-family".to_string(),
        task_count: 1,
        failed_attempts: 2,
        incumbent,
        hairspring,
        verdict: Verdict::Lose,
    };
    let lines = p.report_lines(&figures());
    assert_eq!(lines[0], "HAIRSPRING gate 8 publication (benchmark half)");
    assert_eq!(lines[1], "suite=token-family tasks=1 incumbent_failed_attempts_per_task=2");
    assert_eq!(lines[2], "published win or lose");
    assert_eq!(lines[5], OPERATIONALIZATION);
    assert_eq!(lines[7], "ARM incumbent:");
    assert_eq!(lines[8], "  task-1: attempts=0 restarts=0 passed=false steps_per_attempt=[]");
    let n = lines.len();
    assert_eq!(lines[n - 3], "COMPARISON (decomposition terms, not wall microseconds):");
    assert_eq!(lines[n - 2], "  incumbent priced_steps=0 hairspring priced_steps=0 speedup=3.00x target=2x");
    assert_eq!(lines[n - 1], "  verdict=LOSE");
    assert_eq!(n, 7 + 16 + 15 + 3);
}
