//! The legacy rounds: players, scores, and the rules that end a run.

use vstd::prelude::*;
use vstd::string::StringExecFns;
use crate::chance::coin_flip;
use crate::grid::Direction;
use crate::snake::PlayerHead;
use crate::text::{player_label, render_player_label};

verus! {

/// A named player and the head it steers.
#[derive(Clone, Debug)]
pub struct Player {
    pub name: String,
    pub head: PlayerHead,
}

/// Points collected so far.
#[derive(Clone, Copy, Debug, PartialEq, Eq, Structural)]
pub struct Score {
    pub value: usize,
}

/// One contestant of the rounds: a player together with its score.
#[derive(Clone, Debug)]
pub struct Contestant {
    pub player: Player,
    pub score: Score,
}

/// The limits of a run. They are set once and never change.
#[derive(Clone, Copy, Debug, PartialEq, Eq, Structural)]
pub struct GameRules {
    pub winning_score: usize,
    pub max_rounds: usize,
    pub max_players: usize,
}

/// Where a run stands.
#[derive(Clone, Debug)]
pub struct GameState {
    pub current_round: usize,
    pub total_players: usize,
    pub winning_player: Option<String>,
}

impl Default for GameState {
    fn default() -> (res: GameState)
        ensures
            res.current_round == 0,
            res.total_players == 0,
            res.winning_player is None,
    {
        GameState { current_round: 0, total_players: 0, winning_player: None }
    }
}

/// Begins the next round.
pub fn new_round_system(game_state: &mut GameState)
    requires
        old(game_state).current_round < usize::MAX,
    ensures
        final(game_state).current_round == old(game_state).current_round + 1,
        final(game_state).total_players == old(game_state).total_players,
        final(game_state).winning_player == old(game_state).winning_player,
{
    game_state.current_round += 1;
}

/// Adds a point to `score` if `scored` says so.
pub fn award(score: &mut Score, scored: bool)
    requires
        scored ==> old(score).value < usize::MAX,
    ensures
        final(score).value == old(score).value + (if scored { 1int } else { 0int }),
{
    if scored {
        score.value += 1;
    }
}

/// The contestants after a round in which `flips` says, contestant by
/// contestant, who scored a point.
pub open spec fn scored(before: Seq<Contestant>, flips: Seq<bool>) -> Seq<Contestant> {
    Seq::new(
        before.len(),
        |i: int|
            Contestant {
                player: before[i].player,
                score: Score {
                    value: (before[i].score.value + (if flips[i] {
                        1int
                    } else {
                        0int
                    })) as usize,
                },
            },
    )
}

/// Gives a point to every contestant whose entry in `flips` is true.
pub fn score_round(contestants: &mut Vec<Contestant>, flips: &Vec<bool>)
    requires
        flips.len() == old(contestants).len(),
        forall|i: int|
            0 <= i < flips.len() && flips[i] ==> old(contestants)[i].score.value < usize::MAX,
    ensures
        final(contestants)@ == scored(old(contestants)@, flips@),
{
    let n = contestants.len();
    let mut i: usize = 0;
    while i < n
        invariant
            n == contestants.len(),
            n == flips.len(),
            n == old(contestants).len(),
            i <= n,
            forall|k: int| 0 <= k < i ==> contestants@[k] == scored(old(contestants)@, flips@)[k],
            forall|k: int| i <= k < n ==> contestants@[k] == old(contestants)@[k],
            forall|k: int|
                0 <= k < flips.len() && flips[k] ==> old(contestants)[k].score.value < usize::MAX,
        decreases n - i,
    {
        award(&mut contestants[i].score, flips[i]);
        i += 1;
    }
    assert(contestants@ =~= scored(old(contestants)@, flips@));
}

/// Leaves it to chance, `n` times over, whether a point is scored. Of the
/// outcomes only their number is known.
pub fn draw_flips(n: usize) -> (flips: Vec<bool>)
    ensures
        flips.len() == n,
{
    let mut flips: Vec<bool> = Vec::new();
    let mut i: usize = 0;
    while i < n
        invariant
            i <= n,
            flips.len() == i,
        decreases n - i,
    {
        flips.push(coin_flip());
        i += 1;
    }
    flips
}

/// Plays one round of chance: every contestant, in order, either scores a
/// point or does not. Returns who scored.
pub fn score_system(contestants: &mut Vec<Contestant>) -> (flips: Vec<bool>)
    requires
        forall|i: int| 0 <= i < old(contestants).len() ==> old(contestants)[i].score.value < usize::MAX,
    ensures
        flips.len() == old(contestants).len(),
        final(contestants)@ == scored(old(contestants)@, flips@),
{
    let flips = draw_flips(contestants.len());
    score_round(contestants, &flips);
    flips
}

/// The winner on record after the contestants were looked through in order:
/// the last one whose score equals the winning score, or `prev` if there is
/// none.
pub open spec fn crowned(prev: Option<String>, contestants: Seq<Contestant>, rules: GameRules) -> Option<
    String,
>
    decreases contestants.len(),
{
    if contestants.len() == 0 {
        prev
    } else if contestants.last().score.value == rules.winning_score {
        Some(contestants.last().player.name)
    } else {
        crowned(prev, contestants.drop_last(), rules)
    }
}

/// Records as winner every contestant whose score equals the winning score;
/// a later one replaces an earlier one.
pub fn score_check_system(
    game_rules: &GameRules,
    game_state: &mut GameState,
    contestants: &Vec<Contestant>,
)
    ensures
        final(game_state).winning_player == crowned(
            old(game_state).winning_player,
            contestants@,
            *game_rules,
        ),
        final(game_state).current_round == old(game_state).current_round,
        final(game_state).total_players == old(game_state).total_players,
{
    let mut i: usize = 0;
    assert(contestants@.take(0) =~= Seq::<Contestant>::empty());
    while i < contestants.len()
        invariant
            i <= contestants.len(),
            game_state.winning_player == crowned(
                old(game_state).winning_player,
                contestants@.take(i as int),
                *game_rules,
            ),
            game_state.current_round == old(game_state).current_round,
            game_state.total_players == old(game_state).total_players,
        decreases contestants.len() - i,
    {
        assert(contestants@.take(i + 1).drop_last() =~= contestants@.take(i as int));
        assert(contestants@.take(i + 1).last() == contestants@[i as int]);
        if contestants[i].score.value == game_rules.winning_score {
            game_state.winning_player = Some(contestants[i].player.name.clone());
        }
        i += 1;
    }
    assert(contestants@.take(i as int) =~= contestants@);
}

/// If nobody has the winning score, the winner on record stays; otherwise it
/// is the name of the last contestant that has it.
pub proof fn lemma_crowned(prev: Option<String>, contestants: Seq<Contestant>, rules: GameRules)
    ensures
        (forall|i: int| 0 <= i < contestants.len() ==> contestants[i].score.value != rules.winning_score)
            ==> crowned(prev, contestants, rules) == prev,
        forall|j: int|
            0 <= j < contestants.len() && contestants[j].score.value == rules.winning_score && (forall|
                k: int,
            |
                j < k < contestants.len() ==> contestants[k].score.value != rules.winning_score)
                ==> crowned(prev, contestants, rules) == Some(contestants[j].player.name),
    decreases contestants.len(),
{
    if contestants.len() > 0 {
        lemma_crowned(prev, contestants.drop_last(), rules);
        assert forall|j: int|
            0 <= j < contestants.len() && contestants[j].score.value == rules.winning_score && (forall|
                k: int,
            |
                j < k < contestants.len() ==> contestants[k].score.value != rules.winning_score)
            implies crowned(prev, contestants, rules) == Some(contestants[j].player.name) by {
            if j < contestants.len() - 1 {
                assert(contestants.drop_last()[j] == contestants[j]);
                assert forall|k: int| j < k < contestants.drop_last().len() implies contestants.drop_last()[k].score.value
                    != rules.winning_score by {
                    assert(contestants.drop_last()[k] == contestants[k]);
                }
            }
        }
        if forall|i: int| 0 <= i < contestants.len() ==> contestants[i].score.value != rules.winning_score {
            assert forall|i: int| 0 <= i < contestants.drop_last().len() implies contestants.drop_last()[i].score.value
                != rules.winning_score by {
                assert(contestants.drop_last()[i] == contestants[i]);
            }
        }
    }
}

/// How a run ends.
#[derive(Clone, Debug)]
pub enum RunEnd {
    /// The named player has won.
    Won(String),
    /// The last round was played and nobody has won.
    OutOfRounds,
}

/// Whether the run is over, and how: a winner on record ends it; failing
/// that, having reached the last round ends it.
pub open spec fn verdict(rules: GameRules, state: GameState) -> Option<RunEnd> {
    match state.winning_player {
        Some(name) => Some(RunEnd::Won(name)),
        None => if state.current_round == rules.max_rounds {
            Some(RunEnd::OutOfRounds)
        } else {
            None
        },
    }
}

/// Decides whether the run ends now.
pub fn game_over_system(game_rules: &GameRules, game_state: &GameState) -> (end: Option<RunEnd>)
    ensures
        end == verdict(*game_rules, *game_state),
{
    match &game_state.winning_player {
        Some(player) => Some(RunEnd::Won(player.clone())),
        None => {
            if game_state.current_round == game_rules.max_rounds {
                Some(RunEnd::OutOfRounds)
            } else {
                None
            }
        },
    }
}

/// The rules that every run starts with.
pub open spec fn opening_rules() -> GameRules {
    GameRules { winning_score: 51, max_rounds: 100, max_players: 4 }
}

/// Whether `contestants` are the two that every run starts with: Quorra,
/// heading up, and Clu, heading down, both without points.
pub open spec fn opening_contestants(contestants: Seq<Contestant>) -> bool {
    &&& contestants.len() == 2
    &&& contestants[0].player.name@ == "Quorra"@
    &&& contestants[0].player.head.direction == Direction::Up
    &&& contestants[0].score.value == 0
    &&& contestants[1].player.name@ == "Clu"@
    &&& contestants[1].player.head.direction == Direction::Down
    &&& contestants[1].score.value == 0
}

/// Sets a run up: hands out the rules and the first two contestants, and
/// notes that two players take part.
pub fn startup_system(game_state: &mut GameState) -> (res: (GameRules, Vec<Contestant>))
    ensures
        res.0 == opening_rules(),
        opening_contestants(res.1@),
        final(game_state).total_players == 2,
        final(game_state).current_round == old(game_state).current_round,
        final(game_state).winning_player == old(game_state).winning_player,
{
    let rules = GameRules { max_rounds: 100, winning_score: 51, max_players: 4 };
    let mut contestants: Vec<Contestant> = Vec::new();
    contestants.push(
        Contestant {
            player: Player {
                name: String::from_str("Quorra"),
                head: PlayerHead { direction: Direction::Up },
            },
            score: Score { value: 0 },
        },
    );
    contestants.push(
        Contestant {
            player: Player {
                name: String::from_str("Clu"),
                head: PlayerHead { direction: Direction::Down },
            },
            score: Score { value: 0 },
        },
    );
    game_state.total_players = 2;
    (rules, contestants)
}

/// Whether one more player may join.
pub open spec fn has_room(rules: GameRules, state: GameState) -> bool {
    state.total_players < rules.max_players
}

/// Whether `c` is the contestant that joins as number `n`: named after its
/// number, heading down, without points.
pub open spec fn is_newcomer(c: Contestant, n: nat) -> bool {
    &&& c.player.name@ == player_label(n)
    &&& c.player.head.direction == Direction::Down
    &&& c.score.value == 0
}

/// Lets one more player join if `add` asks for it and there is room. The
/// newcomer is returned; nothing changes otherwise.
pub fn admit_player(game_rules: &GameRules, game_state: &mut GameState, add: bool) -> (joined: Option<
    Contestant,
>)
    ensures
        final(game_state).current_round == old(game_state).current_round,
        final(game_state).winning_player == old(game_state).winning_player,
        add && has_room(*game_rules, *old(game_state)) ==> {
            &&& final(game_state).total_players == old(game_state).total_players + 1
            &&& joined is Some
            &&& is_newcomer(joined->0, final(game_state).total_players as nat)
        },
        !(add && has_room(*game_rules, *old(game_state))) ==> {
            &&& final(game_state).total_players == old(game_state).total_players
            &&& joined is None
        },
{
    if add && game_state.total_players < game_rules.max_players {
        game_state.total_players += 1;
        Some(
            Contestant {
                player: Player {
                    name: render_player_label(game_state.total_players),
                    head: PlayerHead { direction: Direction::Down },
                },
                score: Score { value: 0 },
            },
        )
    } else {
        None
    }
}

/// Leaves it to chance whether one more player joins. Nobody joins when
/// there is no room; when there is, either nothing changes or the newcomer
/// is returned and counted.
pub fn new_player_system(game_rules: &GameRules, game_state: &mut GameState) -> (joined: Option<
    Contestant,
>)
    ensures
        final(game_state).current_round == old(game_state).current_round,
        final(game_state).winning_player == old(game_state).winning_player,
        !has_room(*game_rules, *old(game_state)) ==> joined is None,
        joined is None ==> final(game_state).total_players == old(game_state).total_players,
        joined is Some ==> {
            &&& has_room(*game_rules, *old(game_state))
            &&& final(game_state).total_players == old(game_state).total_players + 1
            &&& is_newcomer(joined->0, final(game_state).total_players as nat)
        },
{
    let add_new_player = coin_flip();
    admit_player(game_rules, game_state, add_new_player)
}

} // verus!
