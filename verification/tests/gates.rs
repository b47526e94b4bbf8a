use snake_game::fixed_step::{FixedStep, StepAction, StepLoop, MOVE_STEP_NANOS};
use snake_game::menu::{menu, Interaction};
use snake_game::pipeline::{MyStage, Pipeline, Stage, StageError};
use snake_game::state::{AppState, Pass, Progress, RunCriteria, StateGate};

fn stages(p: &Pipeline) -> Vec<Stage> {
    (0..p.len()).map(|i| p.get(i).expect("in range")).collect()
}

#[test]
fn fixed_step_refuses_zero() {
    assert!(FixedStep::new(0).is_none());
    let g = FixedStep::new(150).expect("a real step");
    assert_eq!(g.step(), 150);
    assert_eq!(g.accumulator(), 0);
    assert_eq!(MOVE_STEP_NANOS, 150_000_000);
}

#[test]
fn fixed_step_runs_once_per_step() {
    let mut g = FixedStep::new(150).expect("a real step");
    assert_eq!(g.advance(100), 0);
    assert_eq!(g.accumulator(), 100);
    assert_eq!(g.advance(100), 1);
    assert_eq!(g.accumulator(), 50);
    assert_eq!(g.advance(99), 0);
    assert_eq!(g.accumulator(), 149);
    assert_eq!(g.advance(1), 1);
    assert_eq!(g.accumulator(), 0);
}

#[test]
fn fixed_step_catches_up() {
    let mut g = FixedStep::new(150).expect("a real step");
    assert_eq!(g.advance(5000), 33);
    assert_eq!(g.accumulator(), 50);
    assert_eq!(g.advance(0), 0);
    assert_eq!(g.accumulator(), 50);
}

#[test]
fn fixed_step_totals_are_floor_and_remainder() {
    let ticks = [16u64, 17, 16, 400, 0, 3, 149, 150, 151, 1];
    for step in [1u64, 7, 150, 1000] {
        let mut g = FixedStep::new(step).expect("a real step");
        let mut total: u64 = 0;
        let mut runs: u64 = 0;
        for t in ticks {
            runs += g.advance(t);
            total += t;
            assert_eq!(runs, total / step);
            assert_eq!(g.accumulator(), total % step);
        }
    }
}

#[test]
fn fixed_step_at_the_limits() {
    let mut g = FixedStep::new(1).expect("a real step");
    assert_eq!(g.advance(u64::MAX), u64::MAX);
    assert_eq!(g.accumulator(), 0);
    let mut g = FixedStep::new(u64::MAX).expect("a real step");
    assert_eq!(g.advance(u64::MAX - 1), 0);
    assert_eq!(g.advance(u64::MAX), 1);
    assert_eq!(g.accumulator(), u64::MAX - 1);
    let mut g = FixedStep::new(2).expect("a real step");
    assert_eq!(g.advance(1), 0);
    assert_eq!(g.advance(u64::MAX), 1 << 63);
    assert_eq!(g.accumulator(), 0);
}

#[test]
fn new_gate_enters_its_state_first() {
    let mut g = StateGate::new(AppState::MainMenu);
    assert_eq!(g.current(), AppState::MainMenu);
    assert_eq!(g.begin_phase(), vec![Pass::Enter(AppState::MainMenu), Pass::Update(AppState::MainMenu)]);
    assert_eq!(g.begin_phase(), vec![Pass::Update(AppState::MainMenu)]);
    assert_eq!(g.progress, Progress::Settled);
}

#[test]
fn transition_runs_exit_then_enter_once() {
    let mut g = StateGate::new(AppState::MainMenu);
    g.begin_phase();
    g.set(AppState::InGame);
    assert_eq!(g.current(), AppState::MainMenu);
    let mut exits = 0;
    let mut enters = 0;
    let mut state_at_exit = None;
    let mut state_at_enter = None;
    loop {
        let pass = g.advance();
        if RunCriteria::OnExit(AppState::MainMenu).admits(pass) {
            exits += 1;
            state_at_exit = Some(g.current());
        }
        if RunCriteria::OnEnter(AppState::InGame).admits(pass) {
            enters += 1;
            state_at_enter = Some(g.current());
        }
        if matches!(pass, Pass::Update(_)) {
            assert_eq!(pass, Pass::Update(AppState::InGame));
            break;
        }
    }
    assert_eq!(exits, 1);
    assert_eq!(enters, 1);
    assert_eq!(state_at_exit, Some(AppState::MainMenu));
    assert_eq!(state_at_enter, Some(AppState::InGame));
    // later phases run neither hook again
    for _ in 0..3 {
        assert_eq!(g.begin_phase(), vec![Pass::Update(AppState::InGame)]);
    }
}

#[test]
fn transition_passes_in_order() {
    let mut g = StateGate::new(AppState::InGame);
    g.begin_phase();
    g.set(AppState::GameOver);
    assert_eq!(
        g.begin_phase(),
        vec![Pass::Exit(AppState::InGame), Pass::Enter(AppState::GameOver), Pass::Update(AppState::GameOver)]
    );
    assert_eq!(g.current(), AppState::GameOver);
    assert_eq!(g.requested, None);
}

#[test]
fn setting_the_current_state_is_a_no_op() {
    let mut g = StateGate::new(AppState::MainMenu);
    g.begin_phase();
    let before = g;
    g.set(AppState::MainMenu);
    assert_eq!(g, before);
    assert_eq!(g.begin_phase(), vec![Pass::Update(AppState::MainMenu)]);
}

#[test]
fn last_request_wins() {
    let mut g = StateGate::new(AppState::MainMenu);
    g.begin_phase();
    g.set(AppState::InGame);
    g.set(AppState::Paused);
    assert_eq!(g.requested, Some(AppState::Paused));
    g.set(AppState::MainMenu);
    assert_eq!(g.requested, Some(AppState::Paused));
    assert_eq!(
        g.begin_phase(),
        vec![Pass::Exit(AppState::MainMenu), Pass::Enter(AppState::Paused), Pass::Update(AppState::Paused)]
    );
}

#[test]
fn request_made_while_leaving_waits_for_the_next_phase() {
    let mut g = StateGate::new(AppState::MainMenu);
    g.begin_phase();
    g.set(AppState::InGame);
    assert_eq!(g.advance(), Pass::Exit(AppState::MainMenu));
    g.set(AppState::Paused);
    assert_eq!(g.advance(), Pass::Enter(AppState::InGame));
    assert_eq!(g.advance(), Pass::Update(AppState::InGame));
    assert_eq!(g.begin_phase()[0], Pass::Exit(AppState::InGame));
    assert_eq!(g.current(), AppState::Paused);
}

#[test]
fn run_criteria_admit_their_pass_only() {
    let s = AppState::InGame;
    let o = AppState::MainMenu;
    assert!(RunCriteria::Always.admits(Pass::Update(s)));
    assert!(!RunCriteria::Always.admits(Pass::Enter(s)));
    assert!(!RunCriteria::Always.admits(Pass::Exit(s)));
    assert!(RunCriteria::OnEnter(s).admits(Pass::Enter(s)));
    assert!(!RunCriteria::OnEnter(s).admits(Pass::Enter(o)));
    assert!(!RunCriteria::OnEnter(s).admits(Pass::Update(s)));
    assert!(RunCriteria::OnUpdate(s).admits(Pass::Update(s)));
    assert!(!RunCriteria::OnUpdate(s).admits(Pass::Update(o)));
    assert!(RunCriteria::OnExit(s).admits(Pass::Exit(s)));
    assert!(!RunCriteria::OnExit(s).admits(Pass::Exit(o)));
}

#[test]
fn menu_click_asks_for_the_game() {
    let mut g = StateGate::new(AppState::MainMenu);
    g.begin_phase();
    menu(&mut g, &vec![Interaction::Hovered, Interaction::Clicked, Interaction::Idle]);
    assert_eq!(g.requested, Some(AppState::InGame));
    assert_eq!(g.current(), AppState::MainMenu);
}

#[test]
fn menu_without_click_asks_for_nothing() {
    let mut g = StateGate::new(AppState::MainMenu);
    g.begin_phase();
    let before = g;
    menu(&mut g, &vec![Interaction::Hovered, Interaction::Idle]);
    assert_eq!(g, before);
    menu(&mut g, &Vec::new());
    assert_eq!(g, before);
}

#[test]
fn menu_click_in_game_changes_nothing() {
    let mut g = StateGate::new(AppState::InGame);
    g.begin_phase();
    let before = g;
    menu(&mut g, &vec![Interaction::Clicked, Interaction::Clicked]);
    assert_eq!(g, before);
}

#[test]
fn pipeline_starts_with_the_core_stages() {
    let p = Pipeline::new();
    assert_eq!(stages(&p), vec![Stage::PreUpdate, Stage::Update, Stage::PostUpdate]);
    assert_eq!(p.position(Stage::Update), Some(1));
    assert_eq!(p.position(Stage::Round(MyStage::BeforeRound)), None);
    assert_eq!(p.get(3), None);
}

#[test]
fn pipeline_splices_round_stages_around_update() {
    let mut p = Pipeline::new();
    assert_eq!(p.add_stage_before(Stage::Update, Stage::Round(MyStage::BeforeRound)), Ok(()));
    assert_eq!(p.add_stage_after(Stage::Update, Stage::Round(MyStage::AfterRound)), Ok(()));
    assert_eq!(
        stages(&p),
        vec![
            Stage::PreUpdate,
            Stage::Round(MyStage::BeforeRound),
            Stage::Update,
            Stage::Round(MyStage::AfterRound),
            Stage::PostUpdate
        ]
    );
}

#[test]
fn pipeline_splices_at_the_ends() {
    let mut p = Pipeline::new();
    assert_eq!(p.add_stage_before(Stage::PreUpdate, Stage::Round(MyStage::BeforeRound)), Ok(()));
    assert_eq!(p.add_stage_after(Stage::PostUpdate, Stage::Round(MyStage::AfterRound)), Ok(()));
    assert_eq!(p.get(0), Some(Stage::Round(MyStage::BeforeRound)));
    assert_eq!(p.get(4), Some(Stage::Round(MyStage::AfterRound)));
    assert_eq!(p.len(), 5);
}

#[test]
fn pipeline_refuses_unknown_target_and_duplicates() {
    let mut p = Pipeline::new();
    assert_eq!(
        p.add_stage_after(Stage::Round(MyStage::BeforeRound), Stage::Round(MyStage::AfterRound)),
        Err(StageError::UnknownStage(Stage::Round(MyStage::BeforeRound)))
    );
    assert_eq!(
        p.add_stage_before(Stage::Update, Stage::PostUpdate),
        Err(StageError::DuplicateStage(Stage::PostUpdate))
    );
    assert_eq!(
        p.add_stage_before(Stage::Round(MyStage::BeforeRound), Stage::Update),
        Err(StageError::UnknownStage(Stage::Round(MyStage::BeforeRound)))
    );
    assert_eq!(stages(&p), vec![Stage::PreUpdate, Stage::Update, Stage::PostUpdate]);
}

#[test]
fn step_loop_rests_between_steps() {
    let mut clock = FixedStep::new(150).expect("a real step");
    let mut turns = StepLoop::new();
    let on = RunCriteria::OnUpdate(AppState::InGame);
    assert_eq!(turns.poll(&mut clock, 100, on, AppState::InGame), StepAction::Rest);
    assert_eq!(clock.accumulator(), 100);
    assert_eq!(turns.due(), 0);
    assert!(!turns.looping());
}

#[test]
fn step_loop_runs_once_per_step_due() {
    let mut clock = FixedStep::new(150).expect("a real step");
    let mut turns = StepLoop::new();
    let on = RunCriteria::OnUpdate(AppState::InGame);
    // 500 units: three steps fall due, 50 are left
    assert_eq!(turns.poll(&mut clock, 500, on, AppState::InGame), StepAction::Run);
    assert_eq!(turns.due(), 2);
    assert!(turns.looping());
    assert_eq!(clock.accumulator(), 50);
    // while the tick is under way the elapsed time is not counted again
    assert_eq!(turns.poll(&mut clock, 500, on, AppState::InGame), StepAction::Run);
    assert_eq!(turns.poll(&mut clock, 500, on, AppState::InGame), StepAction::Run);
    assert_eq!(turns.poll(&mut clock, 500, on, AppState::InGame), StepAction::Rest);
    assert_eq!(clock.accumulator(), 50);
    assert!(!turns.looping());
    // the next tick counts its time again
    assert_eq!(turns.poll(&mut clock, 100, on, AppState::InGame), StepAction::Run);
    assert_eq!(turns.poll(&mut clock, 100, on, AppState::InGame), StepAction::Rest);
    assert_eq!(clock.accumulator(), 0);
}

#[test]
fn step_loop_skips_outside_the_game() {
    let mut clock = FixedStep::new(150).expect("a real step");
    let mut turns = StepLoop::new();
    let on = RunCriteria::OnUpdate(AppState::InGame);
    assert_eq!(turns.poll(&mut clock, 300, on, AppState::MainMenu), StepAction::Skip);
    assert_eq!(turns.poll(&mut clock, 0, on, AppState::InGame), StepAction::Run);
    assert_eq!(turns.poll(&mut clock, 0, on, AppState::Paused), StepAction::Rest);
    assert_eq!(clock.accumulator(), 0);
}

#[test]
fn step_loop_counts_runs_like_the_clock() {
    let on = RunCriteria::OnUpdate(AppState::InGame);
    let ticks = [16u64, 17, 16, 400, 0, 3, 149, 150, 151, 1];
    let mut clock = FixedStep::new(150).expect("a real step");
    let mut turns = StepLoop::new();
    let mut total: u64 = 0;
    let mut runs: u64 = 0;
    for t in ticks {
        total += t;
        while turns.poll(&mut clock, t, on, AppState::InGame) == StepAction::Run {
            runs += 1;
        }
        assert_eq!(runs, total / 150);
        assert_eq!(clock.accumulator(), total % 150);
    }
}
