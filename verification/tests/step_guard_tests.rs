use hs_loop::mission::{
    after_call_guard, judged_step, mission_spend, step_start_guard, verifier_step, JudgedStep, MissionStop, PassOutcome,
    VerifierStep, VerifierVerdict,
};

#[test]
fn an_interrupt_at_step_start_books_the_earlier_steps() {
    assert_eq!(step_start_guard(1, false), None);
    assert_eq!(step_start_guard(7, false), None);
    assert_eq!(step_start_guard(1, true), Some(MissionStop::Interrupted { after_steps: 0 }));
    assert_eq!(step_start_guard(4, true), Some(MissionStop::Interrupted { after_steps: 3 }));
}

#[test]
fn the_budget_guard_fires_only_above_the_cap() {
    assert_eq!(after_call_guard(Some(100), 100, None, None), None);
    assert_eq!(after_call_guard(Some(100), 101, None, None), Some(MissionStop::BudgetKilled));
    assert_eq!(after_call_guard(None, u64::MAX, None, None), None);
}

#[test]
fn the_wall_guard_fires_at_or_past_the_cap() {
    assert_eq!(after_call_guard(None, 0, Some(60), Some(59)), None);
    assert_eq!(after_call_guard(None, 0, Some(60), Some(60)), Some(MissionStop::WallKilled));
    assert_eq!(after_call_guard(None, 0, Some(60), None), None);
    assert_eq!(after_call_guard(None, 0, None, Some(1_000)), None);
}

#[test]
fn the_budget_guard_comes_before_the_wall_guard() {
    assert_eq!(after_call_guard(Some(10), 11, Some(60), Some(90)), Some(MissionStop::BudgetKilled));
    assert_eq!(after_call_guard(Some(10), 10, Some(60), Some(90)), Some(MissionStop::WallKilled));
}

#[test]
fn mission_spend_is_the_growth_since_the_start() {
    assert_eq!(mission_spend(1_500, 1_000), 500);
    assert_eq!(mission_spend(1_000, 1_000), 0);
    assert_eq!(mission_spend(900, 1_000), 0);
}

#[test]
fn each_stop_has_its_outcome_word() {
    assert_eq!(MissionStop::Interrupted { after_steps: 2 }.outcome(), "interrupted");
    assert_eq!(MissionStop::BudgetKilled.outcome(), "budget_killed");
    assert_eq!(MissionStop::WallKilled.outcome(), "wall_killed");
}

#[test]
fn the_mission_is_exhausted_only_past_its_last_step() {
    assert_eq!(hs_loop::mission::steps_left_guard(1, 3), None);
    assert_eq!(hs_loop::mission::steps_left_guard(3, 3), None);
    assert_eq!(hs_loop::mission::steps_left_guard(4, 3), Some(MissionStop::StepsExhausted));
    assert_eq!(hs_loop::mission::steps_left_guard(1, 0), Some(MissionStop::StepsExhausted));
    assert_eq!(MissionStop::StepsExhausted.outcome(), "steps_exhausted");
}

#[test]
fn a_judged_green_asks_the_verifier_until_the_rounds_are_spent() {
    assert_eq!(judged_step(false, None, 0), JudgedStep::KeepWorking);
    assert_eq!(judged_step(false, Some(false), 0), JudgedStep::KeepWorking);
    assert_eq!(judged_step(true, None, 0), JudgedStep::AskVerifier { round: 1 });
    assert_eq!(judged_step(true, Some(false), 2), JudgedStep::AskVerifier { round: 3 });
    assert_eq!(judged_step(false, Some(true), 1), JudgedStep::AskVerifier { round: 2 });
    assert_eq!(judged_step(true, None, 3), JudgedStep::Pass(PassOutcome::RatchetCapped));
    assert_eq!(PassOutcome::RatchetCapped.outcome(), "ratchet_capped");
}

#[test]
fn only_a_refutation_sends_a_green_back() {
    assert_eq!(verifier_step(&VerifierVerdict::Cleared), VerifierStep::Pass(PassOutcome::Verified));
    let refuted = VerifierVerdict::Refuted { findings: vec!["x".to_string()], blocking: "high".to_string(), feedback: "f".to_string() };
    assert_eq!(verifier_step(&refuted), VerifierStep::SendBack);
    assert_eq!(
        verifier_step(&VerifierVerdict::Malfunction("no verdict".to_string())),
        VerifierStep::Pass(PassOutcome::VerifierMalfunction)
    );
    assert_eq!(PassOutcome::Verified.outcome(), "verified");
    assert_eq!(PassOutcome::VerifierMalfunction.outcome(), "verifier_malfunction");
}
