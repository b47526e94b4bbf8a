//! The systems of the game as they are declared to the scheduler: what each
//! reads and writes, the label it carries, the order it asks for, when it is
//! eligible, and the stage it is registered in.

use vstd::prelude::*;
use crate::pipeline::{MyStage, Stage};
use crate::state::{AppState, RunCriteria};
use crate::system::{Datum, Declared, MyLabels, PlayerMovement, SystemDecl, SystemLabel};

verus! {

/// The systems of the game.
#[derive(Clone, Copy, Debug, PartialEq, Eq, Hash, Structural)]
pub enum SystemId {
    StartupSystem,
    SetupMenu,
    Menu,
    CleanupMenu,
    PositionTranslation,
    SizeScaling,
    SpawnPlayer,
    PlayerGrowth,
    PlayerMovementInput,
    PlayerMovement,
    GameOver,
    NewRoundSystem,
    NewPlayerSystem,
    ScoreSystem,
    ScoreCheckSystem,
    GameOverSystem,
    ChangeColor,
}

/// What each system declares. Data that a system only takes through the
/// command buffer, or only filters by, is no part of its footprint.
pub open spec fn declared(id: SystemId) -> Declared {
    let menu = Some(SystemLabel::Screen(AppState::MainMenu));
    let movement = SystemLabel::Player(PlayerMovement::Movement);
    let none = Seq::<SystemLabel>::empty();
    match id {
        SystemId::StartupSystem => Declared {
            reads: seq![],
            writes: seq![Datum::GameState, Datum::MaterialAssets],
            exclusive: false,
            label: menu,
            before: none,
            after: none,
            criteria: RunCriteria::OnEnter(AppState::MainMenu),
            fixed_step: false,
        },
        SystemId::SetupMenu => Declared {
            reads: seq![Datum::AssetServer],
            writes: seq![],
            exclusive: false,
            label: menu,
            before: none,
            after: none,
            criteria: RunCriteria::OnEnter(AppState::MainMenu),
            fixed_step: false,
        },
        SystemId::Menu => Declared {
            reads: seq![Datum::Interaction],
            writes: seq![Datum::CurrentState, Datum::Material],
            exclusive: false,
            label: menu,
            before: none,
            after: none,
            criteria: RunCriteria::OnUpdate(AppState::MainMenu),
            fixed_step: false,
        },
        SystemId::CleanupMenu => Declared {
            reads: seq![Datum::MenuData],
            writes: seq![],
            exclusive: false,
            label: menu,
            before: none,
            after: none,
            criteria: RunCriteria::OnExit(AppState::MainMenu),
            fixed_step: false,
        },
        SystemId::PositionTranslation => Declared {
            reads: seq![Datum::Windows, Datum::Position],
            writes: seq![Datum::Transform],
            exclusive: false,
            label: None,
            before: none,
            after: none,
            criteria: RunCriteria::OnEnter(AppState::InGame),
            fixed_step: false,
        },
        SystemId::SizeScaling => Declared {
            reads: seq![Datum::Windows, Datum::BoxSize],
            writes: seq![Datum::Sprite],
            exclusive: false,
            label: None,
            before: none,
            after: none,
            criteria: RunCriteria::OnEnter(AppState::InGame),
            fixed_step: false,
        },
        SystemId::SpawnPlayer => Declared {
            reads: seq![Datum::Materials],
            writes: seq![Datum::PlayerSegments],
            exclusive: false,
            label: Some(SystemLabel::Player(PlayerMovement::Spawn)),
            before: seq![movement],
            after: none,
            criteria: RunCriteria::OnEnter(AppState::InGame),
            fixed_step: false,
        },
        SystemId::PlayerGrowth => Declared {
            reads: seq![Datum::Position, Datum::Materials],
            writes: seq![Datum::PlayerSegments],
            exclusive: false,
            label: Some(SystemLabel::Player(PlayerMovement::Growth)),
            before: none,
            after: seq![movement],
            criteria: RunCriteria::OnUpdate(AppState::InGame),
            fixed_step: true,
        },
        SystemId::PlayerMovementInput => Declared {
            reads: seq![Datum::Keyboard],
            writes: seq![Datum::PlayerHead, Datum::CurrentState],
            exclusive: false,
            label: Some(SystemLabel::Player(PlayerMovement::Input)),
            before: seq![movement],
            after: none,
            criteria: RunCriteria::OnUpdate(AppState::InGame),
            fixed_step: true,
        },
        SystemId::PlayerMovement => Declared {
            reads: seq![Datum::PlayerHead],
            writes: seq![Datum::PlayerSegments, Datum::Position, Datum::GameOverEvents],
            exclusive: false,
            label: Some(movement),
            before: none,
            after: none,
            criteria: RunCriteria::OnUpdate(AppState::InGame),
            fixed_step: true,
        },
        SystemId::GameOver => Declared {
            reads: seq![Datum::Materials],
            writes: seq![Datum::GameOverEvents, Datum::PlayerSegments],
            exclusive: false,
            label: None,
            before: seq![movement],
            after: none,
            criteria: RunCriteria::Always,
            fixed_step: false,
        },
        SystemId::NewRoundSystem => Declared {
            reads: seq![Datum::GameRules],
            writes: seq![Datum::GameState],
            exclusive: false,
            label: None,
            before: none,
            after: none,
            criteria: RunCriteria::Always,
            fixed_step: false,
        },
        SystemId::NewPlayerSystem => Declared {
            reads: seq![Datum::GameRules],
            writes: seq![Datum::GameState],
            exclusive: false,
            label: None,
            before: none,
            after: none,
            criteria: RunCriteria::Always,
            fixed_step: false,
        },
        SystemId::ScoreSystem => Declared {
            reads: seq![Datum::Player],
            writes: seq![Datum::Score],
            exclusive: false,
            label: None,
            before: none,
            after: none,
            criteria: RunCriteria::Always,
            fixed_step: false,
        },
        SystemId::ScoreCheckSystem => Declared {
            reads: seq![Datum::GameRules, Datum::Player, Datum::Score],
            writes: seq![Datum::GameState],
            exclusive: false,
            label: Some(SystemLabel::Round(MyLabels::ScoreCheck)),
            before: none,
            after: none,
            criteria: RunCriteria::Always,
            fixed_step: false,
        },
        SystemId::GameOverSystem => Declared {
            reads: seq![Datum::GameRules, Datum::GameState],
            writes: seq![Datum::ExitEvents],
            exclusive: false,
            label: None,
            before: none,
            after: seq![SystemLabel::Round(MyLabels::ScoreCheck)],
            criteria: RunCriteria::Always,
            fixed_step: false,
        },
        SystemId::ChangeColor => Declared {
            reads: seq![Datum::Clock, Datum::Material],
            writes: seq![Datum::MaterialAssets],
            exclusive: false,
            label: None,
            before: none,
            after: none,
            criteria: RunCriteria::Always,
            fixed_step: false,
        },
    }
}

/// Puts a declaration together.
fn decl(
    reads: Vec<Datum>,
    writes: Vec<Datum>,
    label: Option<SystemLabel>,
    before: Vec<SystemLabel>,
    after: Vec<SystemLabel>,
    criteria: RunCriteria,
    fixed_step: bool,
) -> (res: SystemDecl)
    ensures
        res@ == (Declared {
            reads: reads@,
            writes: writes@,
            exclusive: false,
            label,
            before: before@,
            after: after@,
            criteria,
            fixed_step,
        }),
{
    SystemDecl { reads, writes, exclusive: false, label, before, after, criteria, fixed_step }
}

/// Returns what the given system declares.
pub fn declare(id: SystemId) -> (res: SystemDecl)
    ensures
        res@ == declared(id),
{
    let menu = Some(SystemLabel::Screen(AppState::MainMenu));
    let movement = SystemLabel::Player(PlayerMovement::Movement);
    let in_menu = AppState::MainMenu;
    let in_game = AppState::InGame;
    match id {
        SystemId::StartupSystem => decl(
            vec![],
            vec![Datum::GameState, Datum::MaterialAssets],
            menu,
            vec![],
            vec![],
            RunCriteria::OnEnter(in_menu),
            false,
        ),
        SystemId::SetupMenu => decl(
            vec![Datum::AssetServer],
            vec![],
            menu,
            vec![],
            vec![],
            RunCriteria::OnEnter(in_menu),
            false,
        ),
        SystemId::Menu => decl(
            vec![Datum::Interaction],
            vec![Datum::CurrentState, Datum::Material],
            menu,
            vec![],
            vec![],
            RunCriteria::OnUpdate(in_menu),
            false,
        ),
        SystemId::CleanupMenu => decl(
            vec![Datum::MenuData],
            vec![],
            menu,
            vec![],
            vec![],
            RunCriteria::OnExit(in_menu),
            false,
        ),
        SystemId::PositionTranslation => decl(
            vec![Datum::Windows, Datum::Position],
            vec![Datum::Transform],
            None,
            vec![],
            vec![],
            RunCriteria::OnEnter(in_game),
            false,
        ),
        SystemId::SizeScaling => decl(
            vec![Datum::Windows, Datum::BoxSize],
            vec![Datum::Sprite],
            None,
            vec![],
            vec![],
            RunCriteria::OnEnter(in_game),
            false,
        ),
        SystemId::SpawnPlayer => decl(
            vec![Datum::Materials],
            vec![Datum::PlayerSegments],
            Some(SystemLabel::Player(PlayerMovement::Spawn)),
            vec![movement],
            vec![],
            RunCriteria::OnEnter(in_game),
            false,
        ),
        SystemId::PlayerGrowth => decl(
            vec![Datum::Position, Datum::Materials],
            vec![Datum::PlayerSegments],
            Some(SystemLabel::Player(PlayerMovement::Growth)),
            vec![],
            vec![movement],
            RunCriteria::OnUpdate(in_game),
            true,
        ),
        SystemId::PlayerMovementInput => decl(
            vec![Datum::Keyboard],
            vec![Datum::PlayerHead, Datum::CurrentState],
            Some(SystemLabel::Player(PlayerMovement::Input)),
            vec![movement],
            vec![],
            RunCriteria::OnUpdate(in_game),
            true,
        ),
        SystemId::PlayerMovement => decl(
            vec![Datum::PlayerHead],
            vec![Datum::PlayerSegments, Datum::Position, Datum::GameOverEvents],
            Some(movement),
            vec![],
            vec![],
            RunCriteria::OnUpdate(in_game),
            true,
        ),
        SystemId::GameOver => decl(
            vec![Datum::Materials],
            vec![Datum::GameOverEvents, Datum::PlayerSegments],
            None,
            vec![movement],
            vec![],
            RunCriteria::Always,
            false,
        ),
        SystemId::NewRoundSystem => decl(
            vec![Datum::GameRules],
            vec![Datum::GameState],
            None,
            vec![],
            vec![],
            RunCriteria::Always,
            false,
        ),
        SystemId::NewPlayerSystem => decl(
            vec![Datum::GameRules],
            vec![Datum::GameState],
            None,
            vec![],
            vec![],
            RunCriteria::Always,
            false,
        ),
        SystemId::ScoreSystem => decl(
            vec![Datum::Player],
            vec![Datum::Score],
            None,
            vec![],
            vec![],
            RunCriteria::Always,
            false,
        ),
        SystemId::ScoreCheckSystem => decl(
            vec![Datum::GameRules, Datum::Player, Datum::Score],
            vec![Datum::GameState],
            Some(SystemLabel::Round(MyLabels::ScoreCheck)),
            vec![],
            vec![],
            RunCriteria::Always,
            false,
        ),
        SystemId::GameOverSystem => decl(
            vec![Datum::GameRules, Datum::GameState],
            vec![Datum::ExitEvents],
            None,
            vec![],
            vec![SystemLabel::Round(MyLabels::ScoreCheck)],
            RunCriteria::Always,
            false,
        ),
        SystemId::ChangeColor => decl(
            vec![Datum::Clock, Datum::Material],
            vec![Datum::MaterialAssets],
            None,
            vec![],
            vec![],
            RunCriteria::Always,
            false,
        ),
    }
}

/// The systems that are registered in each stage, in the order of their
/// declaration.
pub open spec fn registered(stage: Stage) -> Seq<SystemId> {
    match stage {
        Stage::PreUpdate => seq![
            SystemId::StartupSystem,
            SystemId::SetupMenu,
            SystemId::Menu,
            SystemId::CleanupMenu,
        ],
        Stage::Update => seq![
            SystemId::PositionTranslation,
            SystemId::SizeScaling,
            SystemId::SpawnPlayer,
        ],
        Stage::PostUpdate => seq![
            SystemId::PlayerGrowth,
            SystemId::PlayerMovementInput,
            SystemId::PlayerMovement,
        ],
        Stage::Round(MyStage::BeforeRound) => seq![],
        Stage::Round(MyStage::AfterRound) => seq![],
    }
}

/// Returns the systems that are registered in `stage`.
pub fn systems_of(stage: Stage) -> (ids: Vec<SystemId>)
    ensures
        ids@ == registered(stage),
{
    match stage {
        Stage::PreUpdate => vec![
            SystemId::StartupSystem,
            SystemId::SetupMenu,
            SystemId::Menu,
            SystemId::CleanupMenu,
        ],
        Stage::Update => vec![
            SystemId::PositionTranslation,
            SystemId::SizeScaling,
            SystemId::SpawnPlayer,
        ],
        Stage::PostUpdate => vec![
            SystemId::PlayerGrowth,
            SystemId::PlayerMovementInput,
            SystemId::PlayerMovement,
        ],
        Stage::Round(_) => vec![],
    }
}

/// Returns what the given systems declare, one by one.
pub fn declarations(ids: &Vec<SystemId>) -> (decls: Vec<SystemDecl>)
    ensures
        decls.len() == ids.len(),
        forall|i: int| 0 <= i < ids.len() ==> (#[trigger] decls@[i])@ == declared(ids@[i]),
{
    let mut decls: Vec<SystemDecl> = Vec::new();
    let mut i: usize = 0;
    while i < ids.len()
        invariant
            i <= ids.len(),
            decls.len() == i,
            forall|k: int| 0 <= k < i ==> (#[trigger] decls@[k])@ == declared(ids@[k]),
        decreases ids.len() - i,
    {
        decls.push(declare(ids[i]));
        i += 1;
    }
    decls
}

} // verus!
