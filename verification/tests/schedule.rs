use snake_game::schedule::{ambiguities, check_labels, is_defined, plan, precedes, PlanError};
use snake_game::state::{AppState, RunCriteria};
use snake_game::system::{
    names, overlaps, touches, Datum, MyLabels, PlayerMovement, SystemDecl, SystemLabel,
};

fn label(l: PlayerMovement) -> SystemLabel {
    SystemLabel::Player(l)
}

fn decl(reads: &[Datum], writes: &[Datum]) -> SystemDecl {
    let mut d = SystemDecl::new();
    d.reads = reads.to_vec();
    d.writes = writes.to_vec();
    d
}

fn labelled(mut d: SystemDecl, l: SystemLabel) -> SystemDecl {
    d.label = Some(l);
    d
}

fn before(mut d: SystemDecl, l: SystemLabel) -> SystemDecl {
    d.before.push(l);
    d
}

fn after(mut d: SystemDecl, l: SystemLabel) -> SystemDecl {
    d.after.push(l);
    d
}

/// The three systems that drive the snake, as they are declared: growth
/// first, then input, then movement.
fn in_game() -> Vec<SystemDecl> {
    let growth = after(
        labelled(
            decl(&[Datum::Position, Datum::Materials], &[Datum::PlayerSegments]),
            label(PlayerMovement::Growth),
        ),
        label(PlayerMovement::Movement),
    );
    let input = before(
        labelled(
            decl(&[Datum::Keyboard], &[Datum::PlayerHead, Datum::CurrentState]),
            label(PlayerMovement::Input),
        ),
        label(PlayerMovement::Movement),
    );
    let movement = labelled(
        decl(&[Datum::PlayerHead], &[Datum::PlayerSegments, Datum::Position, Datum::GameOverEvents]),
        label(PlayerMovement::Movement),
    );
    vec![growth, input, movement]
}

#[test]
fn new_decl_is_blank() {
    let d = SystemDecl::new();
    assert!(d.reads.is_empty() && d.writes.is_empty());
    assert!(d.before.is_empty() && d.after.is_empty());
    assert!(!d.exclusive && !d.fixed_step);
    assert_eq!(d.label, None);
    assert_eq!(d.criteria, RunCriteria::Always);
}

#[test]
fn lists_are_searched() {
    let ls = vec![label(PlayerMovement::Input), SystemLabel::Screen(AppState::MainMenu)];
    assert!(names(&ls, SystemLabel::Screen(AppState::MainMenu)));
    assert!(!names(&ls, SystemLabel::Round(MyLabels::ScoreCheck)));
    let ds = vec![Datum::Position, Datum::Score];
    assert!(touches(&ds, Datum::Score));
    assert!(!touches(&ds, Datum::Player));
    assert!(overlaps(&ds, &vec![Datum::Player, Datum::Score]));
    assert!(!overlaps(&ds, &vec![Datum::Player]));
    assert!(!overlaps(&ds, &Vec::new()));
}

#[test]
fn conflicts_need_a_writer() {
    let r1 = decl(&[Datum::Position], &[]);
    let r2 = decl(&[Datum::Position], &[]);
    let w = decl(&[], &[Datum::Position]);
    let other = decl(&[Datum::Score], &[Datum::Score]);
    assert!(!r1.conflicts_with(&r2));
    assert!(r1.conflicts_with(&w));
    assert!(w.conflicts_with(&r1));
    assert!(w.conflicts_with(&decl(&[], &[Datum::Position])));
    assert!(!w.conflicts_with(&other));
    let mut alone = SystemDecl::new();
    alone.exclusive = true;
    assert!(alone.conflicts_with(&other));
    assert!(other.conflicts_with(&alone));
}

#[test]
fn declared_order_goes_by_labels() {
    let ds = in_game();
    assert!(ds[1].runs_before(&ds[2]));
    assert!(ds[2].runs_before(&ds[0]));
    assert!(!ds[0].runs_before(&ds[2]));
    assert!(!ds[1].runs_before(&ds[0]));
    assert!(precedes(&ds, 1, 2));
    assert!(precedes(&ds, 2, 0));
    assert!(!precedes(&ds, 0, 2));
    assert!(!precedes(&ds, 0, 1));
    assert!(!precedes(&ds, 0, 7));
}

#[test]
fn snake_systems_run_input_movement_growth() {
    assert_eq!(plan(&in_game()), Ok(vec![vec![1], vec![2], vec![0]]));
}

#[test]
fn empty_phase_has_empty_plan() {
    assert_eq!(plan(&Vec::new()), Ok(Vec::new()));
}

#[test]
fn independent_systems_share_a_batch() {
    let ds = vec![
        decl(&[Datum::Position], &[Datum::Sprite]),
        decl(&[Datum::Position], &[Datum::Transform]),
        decl(&[Datum::Score], &[]),
    ];
    assert_eq!(plan(&ds), Ok(vec![vec![0, 1, 2]]));
}

#[test]
fn conflicts_are_serialised_in_declaration_order() {
    let ds = vec![
        decl(&[], &[Datum::Score]),
        decl(&[Datum::Score], &[]),
        decl(&[], &[Datum::Position]),
        decl(&[Datum::Score, Datum::Position], &[Datum::GameState]),
    ];
    assert_eq!(plan(&ds), Ok(vec![vec![0, 2], vec![1, 3]]));
}

#[test]
fn no_batch_holds_a_conflict() {
    let ds = vec![
        decl(&[Datum::Score], &[Datum::GameState]),
        decl(&[], &[Datum::Score]),
        decl(&[Datum::GameState], &[Datum::Position]),
        decl(&[Datum::Position], &[]),
        decl(&[Datum::Keyboard], &[Datum::PlayerHead]),
        decl(&[Datum::PlayerHead], &[Datum::Score]),
    ];
    let batches = plan(&ds).expect("no circle");
    let mut seen = vec![false; ds.len()];
    for batch in &batches {
        assert!(!batch.is_empty());
        for (p, &a) in batch.iter().enumerate() {
            assert!(!seen[a]);
            seen[a] = true;
            for &b in &batch[p + 1..] {
                assert!(a < b);
                assert!(!ds[a].conflicts_with(&ds[b]));
            }
        }
    }
    assert!(seen.iter().all(|&s| s));
    assert_eq!(batches, vec![vec![0, 4], vec![1, 2], vec![3, 5]]);
}

#[test]
fn exclusive_system_runs_alone() {
    let mut alone = SystemDecl::new();
    alone.exclusive = true;
    let ds = vec![decl(&[Datum::Score], &[]), alone, decl(&[Datum::Position], &[])];
    assert_eq!(plan(&ds), Ok(vec![vec![0], vec![1], vec![2]]));
}

#[test]
fn explicit_order_overrides_declaration_order() {
    let writer = labelled(decl(&[], &[Datum::Score]), SystemLabel::Round(MyLabels::ScoreCheck));
    let reader = before(decl(&[Datum::Score], &[]), SystemLabel::Round(MyLabels::ScoreCheck));
    assert_eq!(plan(&vec![writer, reader]), Ok(vec![vec![1], vec![0]]));
}

#[test]
fn shared_label_orders_against_every_carrier() {
    let l = SystemLabel::Screen(AppState::MainMenu);
    let ds = vec![
        after(SystemDecl::new(), l),
        labelled(SystemDecl::new(), l),
        labelled(SystemDecl::new(), l),
    ];
    assert_eq!(plan(&ds), Ok(vec![vec![1, 2], vec![0]]));
}

#[test]
fn unknown_label_is_reported_first() {
    let ds = vec![
        labelled(SystemDecl::new(), label(PlayerMovement::Input)),
        after(before(SystemDecl::new(), label(PlayerMovement::Input)), label(PlayerMovement::Spawn)),
        before(SystemDecl::new(), label(PlayerMovement::Growth)),
    ];
    assert_eq!(check_labels(&ds), Some((1, label(PlayerMovement::Spawn))));
    assert_eq!(
        plan(&ds),
        Err(PlanError::UnknownLabel { system: 1, label: label(PlayerMovement::Spawn) })
    );
    assert!(is_defined(&ds, label(PlayerMovement::Input)));
    assert!(!is_defined(&ds, label(PlayerMovement::Growth)));
}

#[test]
fn unknown_label_wins_over_circle() {
    let a = before(labelled(SystemDecl::new(), label(PlayerMovement::Input)), label(PlayerMovement::Input));
    let b = after(SystemDecl::new(), label(PlayerMovement::Spawn));
    assert_eq!(
        plan(&vec![a, b]),
        Err(PlanError::UnknownLabel { system: 1, label: label(PlayerMovement::Spawn) })
    );
}

#[test]
fn spawn_before_movement_needs_movement_in_the_phase() {
    let spawn = before(
        labelled(decl(&[Datum::Materials], &[Datum::PlayerSegments]), label(PlayerMovement::Spawn)),
        label(PlayerMovement::Movement),
    );
    assert_eq!(
        plan(&vec![spawn]),
        Err(PlanError::UnknownLabel { system: 0, label: label(PlayerMovement::Movement) })
    );
}

#[test]
fn circle_is_reported() {
    let a = before(labelled(SystemDecl::new(), label(PlayerMovement::Input)), label(PlayerMovement::Movement));
    let b = before(labelled(SystemDecl::new(), label(PlayerMovement::Movement)), label(PlayerMovement::Growth));
    let c = before(labelled(SystemDecl::new(), label(PlayerMovement::Growth)), label(PlayerMovement::Input));
    assert_eq!(plan(&vec![SystemDecl::new(), a, b, c]), Err(PlanError::Cycle));
}

#[test]
fn system_before_itself_is_a_circle() {
    let a = before(labelled(SystemDecl::new(), label(PlayerMovement::Input)), label(PlayerMovement::Input));
    assert_eq!(plan(&vec![a]), Err(PlanError::Cycle));
}

#[test]
fn conflict_against_declared_order_is_a_circle() {
    // 0 writes what 1 reads, 1 writes what 2 reads, and 2 is declared to run before 0
    let a = labelled(decl(&[], &[Datum::Score]), label(PlayerMovement::Input));
    let b = decl(&[Datum::Score], &[Datum::Position]);
    let c = before(decl(&[Datum::Position], &[]), label(PlayerMovement::Input));
    assert_eq!(plan(&vec![a, b, c]), Err(PlanError::Cycle));
}

#[test]
fn plan_is_the_same_every_time() {
    let ds = in_game();
    let first = plan(&ds);
    for _ in 0..5 {
        assert_eq!(plan(&ds), first);
    }
}

#[test]
fn ambiguities_list_open_read_write_pairs() {
    let ds = vec![
        decl(&[], &[Datum::Score]),
        decl(&[Datum::Score], &[]),
        decl(&[], &[Datum::Score]),
        decl(&[Datum::Position], &[]),
        decl(&[Datum::Score], &[Datum::Position]),
    ];
    // 0-2 and 2-4 write the same or are told apart otherwise:
    // 0-2 both write the score, so the pair is a plain conflict
    assert_eq!(ambiguities(&ds), vec![(0, 1), (0, 4), (1, 2), (2, 4), (3, 4)]);
}

#[test]
fn declared_order_removes_the_ambiguity() {
    assert_eq!(ambiguities(&in_game()), Vec::<(usize, usize)>::new());
    let ds = in_game();
    assert!(!ds[0].ambiguous_with(&ds[1]));
    let open = vec![decl(&[], &[Datum::PlayerHead]), decl(&[Datum::PlayerHead], &[])];
    assert_eq!(ambiguities(&open), vec![(0, 1)]);
    assert!(open[0].ambiguous_with(&open[1]));
}
