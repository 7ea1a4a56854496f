//! The match: its roster, the lobby, and the turn engine.

use crate::grid::{
    afloat, fleet_occupies, fleet_struck, fleet_sunk, names_cell, revealed_fleet, token_of,
    Coordinate, GridView,
};
use crate::notice::{
    countdown_notice, countdown_text, firing_notice, firing_text, opponent_notice, opponent_text,
    outbox_view, prompt_notice, prompt_text, remaining_notice, remaining_text, text_to,
    turn_notice, turn_text, won_notice, won_text, Delivery, DeliveryView, Notice, NoticeView, HIT,
    INVALID_TARGET, MISSED, WAITING, YOUR_GRID, YOU_WON,
};
use crate::player::{Player, PlayerView};
use vstd::prelude::*;

verus! {

/// Number of players in a match.
pub const MAX_PLAYERS: usize = 3;

/// The place in the roster of the player that the player at place `i` fires
/// at: the next one, and the first one for the last.
pub open spec fn opponent_of(i: int) -> int {
    (i + 1) % (MAX_PLAYERS as int)
}

/// The opponents form one cycle through all three places: no two players
/// fire at each other, and following the opponents three times leads back.
pub proof fn lemma_opponent_cycle()
    ensures
        opponent_of(0) == 1,
        opponent_of(1) == 2,
        opponent_of(2) == 0,
        forall|i: int|
            0 <= i < MAX_PLAYERS ==> {
                &&& 0 <= #[trigger] opponent_of(i) < MAX_PLAYERS
                &&& opponent_of(i) != i
                &&& opponent_of(opponent_of(i)) != i
                &&& opponent_of(opponent_of(opponent_of(i))) == i
            },
{
}

/// The notices that a join gives rise to, for the roster that it leaves:
/// the first player is told to wait, and when the roster is full every
/// player is told the name of their opponent.
pub open spec fn join_notices(roster: Seq<PlayerView>) -> Seq<DeliveryView> {
    if roster.len() == MAX_PLAYERS {
        Seq::new(
            MAX_PLAYERS as nat,
            |i: int| text_to(i, opponent_text(roster[opponent_of(i)].name)),
        )
    } else if roster.len() == 1 {
        seq![text_to(0, WAITING@)]
    } else {
        Seq::empty()
    }
}

/// Number of steps of the countdown before a match.
pub const COUNTDOWN_STEPS: u8 = 3;

/// Where a match stands.
#[derive(Clone, Copy, Debug, PartialEq, Eq, Structural)]
pub enum Stage {
    /// The countdown runs, with this many steps to go.
    Countdown(u8),
    /// The player at this place is next: their fleet is looked at before
    /// they are given the turn.
    TurnOf(usize),
    /// The player at this place has been asked for a target, and the
    /// engine waits for their token.
    Aiming(usize),
    /// The match is won and the roster is empty.
    MatchOver,
}

/// The notices of one step of the countdown: the same line to every player,
/// in the order of the roster.
pub open spec fn countdown_notices(roster: Seq<PlayerView>, remaining: nat) -> Seq<DeliveryView> {
    Seq::new(roster.len(), |i: int| text_to(i, countdown_text(remaining)))
}

/// The stage that follows a countdown with `remaining` steps to go.
pub open spec fn after_countdown(remaining: u8) -> Stage {
    if remaining > 1 {
        Stage::Countdown((remaining - 1) as u8)
    } else {
        Stage::TurnOf(0)
    }
}

/// The `k`-th notice of the display of the grids. Each player gets three in
/// a row: what they may see of their opponent's grid, on a grid of the given
/// size; the heading of their own grid; and their own grid.
pub open spec fn grid_notice(
    roster: Seq<PlayerView>,
    width: u8,
    height: u8,
    k: int,
) -> DeliveryView {
    let i = k / 3;
    let target = roster[opponent_of(i)].grid;
    if k % 3 == 0 {
        DeliveryView {
            to: i,
            notice: NoticeView::Radar(
                GridView {
                    width,
                    height,
                    fleet: revealed_fleet(target.fleet, target.hits),
                    hits: Seq::empty(),
                },
            ),
        }
    } else if k % 3 == 1 {
        text_to(i, YOUR_GRID@)
    } else {
        DeliveryView { to: i, notice: NoticeView::Fleet(roster[i].grid) }
    }
}

/// The display of the grids to every player, in the order of the roster.
pub open spec fn grid_notices(roster: Seq<PlayerView>, width: u8, height: u8) -> Seq<DeliveryView> {
    Seq::new(3 * roster.len(), |k: int| grid_notice(roster, width, height, k))
}

/// The notices that give the turn to the player at place `i`: the prompt to
/// that player, then a line to each of the others, in the order of the
/// roster.
pub open spec fn turn_notices(roster: Seq<PlayerView>, i: int) -> Seq<DeliveryView> {
    seq![text_to(i, prompt_text(roster[opponent_of(i)].name))] + Seq::new(
        (roster.len() - 1) as nat,
        |k: int| text_to(if k < i { k } else { k + 1 }, turn_text(roster[i].name)),
    )
}

/// The notices of a win over the player at place `i`: the loser is told who
/// won, then the winner is told so.
pub open spec fn win_notices(roster: Seq<PlayerView>, i: int) -> Seq<DeliveryView> {
    seq![
        text_to(i, won_text(roster[opponent_of(i)].name)),
        text_to(opponent_of(i), YOU_WON@),
    ]
}

/// The roster after the player at place `i` has fired at the cell of `c`:
/// the shot is on the record of the opponent's grid and has struck the
/// opponent's fleet. Nothing else changes.
pub open spec fn after_shot(roster: Seq<PlayerView>, i: int, c: Coordinate) -> Seq<PlayerView> {
    let target = roster[opponent_of(i)];
    roster.update(opponent_of(i), PlayerView { name: target.name, grid: target.grid.shot_at(c) })
}

/// Whether a shot of the player at place `i` at the cell of `c` hits.
pub open spec fn shot_hits(roster: Seq<PlayerView>, i: int, c: Coordinate) -> bool {
    fleet_occupies(roster[opponent_of(i)].grid.fleet, c)
}

/// The notices of a shot of the player at place `i` at the cell of `c`: the
/// outcome and the number of ships that the opponent has left go to the
/// shooter, and the opponent is told where the shot went.
pub open spec fn shot_notices(roster: Seq<PlayerView>, i: int, c: Coordinate) -> Seq<DeliveryView> {
    let target = roster[opponent_of(i)];
    seq![
        text_to(i, if shot_hits(roster, i, c) { HIT@ } else { MISSED@ }),
        text_to(i, remaining_text(target.name, afloat(fleet_struck(target.grid.fleet, c)))),
        text_to(opponent_of(i), firing_text(roster[i].name, token_of(c.x, c.y))),
    ]
}

/// The place of the player who is next after a shot of the player at place
/// `i` at the cell of `c`: the same player after a hit, their opponent after
/// a miss.
pub open spec fn next_turn(roster: Seq<PlayerView>, i: int, c: Coordinate) -> int {
    if shot_hits(roster, i, c) {
        i
    } else {
        opponent_of(i)
    }
}

/// What one move of the engine gives: the stage that the match is in now,
/// the notices to deliver, and whether to let a second pass after
/// delivering them.
#[derive(Debug)]
pub struct Step {
    /// The stage after the move.
    pub stage: Stage,
    /// The notices to deliver, in this order.
    pub outbox: Vec<Delivery>,
    /// Whether to wait for a second before the next move.
    pub pause: bool,
}

/// Whether every grid of the roster is in order: its fleet is validly
/// placed, and a cell of a ship is marked exactly if a shot at it is on the
/// grid's record.
pub open spec fn roster_sound(roster: Seq<PlayerView>) -> bool {
    forall|p: int|
        0 <= p < roster.len() ==> (#[trigger] roster[p]).grid.well_placed()
            && roster[p].grid.faithful()
}

/// The error of a join while the roster is full.
#[derive(Clone, Copy, Debug, PartialEq, Eq, Structural)]
pub struct LobbyFull;

/// A match between three players.
///
/// One value serves match after match: the roster fills as players join and
/// is emptied when a match is won.
#[derive(Debug)]
pub struct Game {
    /// The roster: the players of the match, in the order in which they
    /// joined.
    pub players: Vec<Player>,
}

impl View for Game {
    type V = Seq<PlayerView>;

    open spec fn view(&self) -> Seq<PlayerView> {
        Seq::new(self.players@.len(), |i: int| self.players@[i]@)
    }
}

impl Default for Game {
    fn default() -> (game: Game)
        ensures
            game@ == Seq::<PlayerView>::empty(),
    {
        let game = Game { players: Vec::new() };
        assert(game@ =~= Seq::<PlayerView>::empty());
        game
    }
}

impl Game {
    /// Whether the roster holds no more players than a match has.
    pub open spec fn wf(&self) -> bool {
        self@.len() <= MAX_PLAYERS
    }

    /// Whether the roster is full, so that a match can be played.
    pub fn is_ready(&self) -> (r: bool)
        ensures
            r == (self@.len() == MAX_PLAYERS),
    {
        self.players.len() == MAX_PLAYERS
    }

    /// Admits a player to the roster, unless it is full.
    ///
    /// A full roster is left as it is and the player is turned away.
    /// Otherwise the player joins at the end of the roster, and the result
    /// lists the notices to deliver.
    pub fn add_player(&mut self, player: Player) -> (r: Result<Vec<Delivery>, LobbyFull>)
        ensures
            old(self).wf() ==> final(self).wf(),
            roster_sound(old(self)@) && player@.grid.well_placed() && player@.grid.faithful()
                ==> roster_sound(final(self)@),
            match r {
                Ok(outbox) => {
                    &&& old(self)@.len() < MAX_PLAYERS
                    &&& final(self)@ == old(self)@.push(player@)
                    &&& outbox_view(outbox@) == join_notices(final(self)@)
                },
                Err(_) => old(self)@.len() >= MAX_PLAYERS && final(self)@ == old(self)@,
            },
    {
        if self.players.len() >= MAX_PLAYERS {
            return Err(LobbyFull);
        }
        self.players.push(player);
        assert(self@ =~= old(self)@.push(player@));
        let mut outbox: Vec<Delivery> = Vec::new();
        if self.players.len() == MAX_PLAYERS {
            let mut i: usize = 0;
            while i < MAX_PLAYERS
                invariant
                    0 <= i <= MAX_PLAYERS,
                    self@.len() == MAX_PLAYERS,
                    outbox@.len() == i,
                    forall|k: int|
                        0 <= k < i ==> (#[trigger] outbox@[k])@ == text_to(
                            k,
                            opponent_text(self@[opponent_of(k)].name),
                        ),
                decreases MAX_PLAYERS - i,
            {
                let text = opponent_notice(self.opponent(i).name.as_str());
                outbox.push(Delivery { to: i, notice: Notice::Text(text) });
                i = i + 1;
            }
        } else if self.players.len() == 1 {
            outbox.push(Delivery::text(0, WAITING));
        }
        assert(outbox_view(outbox@) =~= join_notices(self@));
        Ok(outbox)
    }

    /// Empties the roster, so that the next players can join.
    pub fn reset(&mut self)
        ensures
            final(self)@ == Seq::<PlayerView>::empty(),
    {
        self.players.clear();
        assert(self@ =~= Seq::<PlayerView>::empty());
    }

    /// The place in the roster of the opponent of the player at place `i`.
    pub fn opponent_index(&self, i: usize) -> (r: usize)
        ensures
            r == opponent_of(i as int),
            r < MAX_PLAYERS,
    {
        (i % MAX_PLAYERS + 1) % MAX_PLAYERS
    }

    /// The opponent of the player at place `i` of a full roster.
    pub fn opponent(&self, i: usize) -> (r: &Player)
        requires
            self@.len() == MAX_PLAYERS,
        ensures
            *r == self.players@[opponent_of(i as int)],
    {
        let at = self.opponent_index(i);
        &self.players[at]
    }

    /// The opponent of the player at place `i` of a full roster, to be
    /// changed in place.
    pub fn opponent_mut(&mut self, i: usize) -> (r: &mut Player)
        requires
            old(self)@.len() == MAX_PLAYERS,
        ensures
            *r == old(self).players@[opponent_of(i as int)],
            final(self).players@ == old(self).players@.update(opponent_of(i as int), *final(r)),
    {
        let at = self.opponent_index(i);
        &mut self.players[at]
    }

    /// Whether the match can be in `stage` with this roster: but for the end
    /// of a match, the roster is full, and the stage names a place in it.
    pub open spec fn admits(&self, stage: Stage) -> bool {
        match stage {
            Stage::Countdown(_) => self@.len() == MAX_PLAYERS,
            Stage::TurnOf(i) => self@.len() == MAX_PLAYERS && i < MAX_PLAYERS,
            Stage::Aiming(i) => self@.len() == MAX_PLAYERS && i < MAX_PLAYERS,
            Stage::MatchOver => true,
        }
    }

    /// The stage that a match starts in, if the roster is full: the whole
    /// countdown is to go.
    pub fn start(&self) -> (r: Option<Stage>)
        ensures
            r == if self@.len() == MAX_PLAYERS {
                Some(Stage::Countdown(COUNTDOWN_STEPS))
            } else {
                None
            },
    {
        if self.is_ready() {
            Some(Stage::Countdown(COUNTDOWN_STEPS))
        } else {
            None
        }
    }

    /// Makes one step of the countdown with `remaining` steps to go.
    ///
    /// Every player is told how many steps remain, and a second is to pass
    /// before the next move. After the last step the first player is next.
    /// With no step to go nothing is sent and the first player is next at
    /// once.
    pub fn show_countdown(&self, remaining: u8) -> (step: Step)
        ensures
            step.stage == after_countdown(remaining),
            self.admits(Stage::Countdown(remaining)) ==> self.admits(step.stage),
            step.pause == (remaining > 0),
            outbox_view(step.outbox@) == if remaining > 0 {
                countdown_notices(self@, remaining as nat)
            } else {
                Seq::empty()
            },
    {
        let mut outbox: Vec<Delivery> = Vec::new();
        if remaining == 0 {
            assert(outbox_view(outbox@) =~= Seq::<DeliveryView>::empty());
            return Step { stage: Stage::TurnOf(0), outbox, pause: false };
        }
        let mut i: usize = 0;
        while i < self.players.len()
            invariant
                0 <= i <= self.players.len(),
                outbox@.len() == i,
                forall|k: int|
                    0 <= k < i ==> (#[trigger] outbox@[k])@ == text_to(
                        k,
                        countdown_text(remaining as nat),
                    ),
            decreases self.players.len() - i,
        {
            outbox.push(Delivery { to: i, notice: Notice::Text(countdown_notice(remaining)) });
            i = i + 1;
        }
        assert(outbox_view(outbox@) =~= countdown_notices(self@, remaining as nat));
        let stage = if remaining > 1 {
            Stage::Countdown(remaining - 1)
        } else {
            Stage::TurnOf(0)
        };
        Step { stage, outbox, pause: true }
    }

    /// The display of the grids to every player of a full roster.
    ///
    /// Each player gets what they may see of their opponent's grid (the
    /// shots fired at it, marked where they hit) on a grid of the given
    /// size, then the heading of their own grid, then their own grid.
    pub fn show_grid(&self, width: u8, height: u8) -> (outbox: Vec<Delivery>)
        requires
            self@.len() == MAX_PLAYERS,
        ensures
            outbox_view(outbox@) == grid_notices(self@, width, height),
    {
        let mut outbox: Vec<Delivery> = Vec::new();
        let mut i: usize = 0;
        while i < MAX_PLAYERS
            invariant
                0 <= i <= MAX_PLAYERS,
                self@.len() == MAX_PLAYERS,
                outbox@.len() == 3 * i,
                forall|k: int|
                    0 <= k < 3 * i ==> (#[trigger] outbox@[k])@ == grid_notice(
                        self@,
                        width,
                        height,
                        k,
                    ),
            decreases MAX_PLAYERS - i,
        {
            let radar = self.opponent(i).grid.revealed(width, height);
            outbox.push(Delivery { to: i, notice: Notice::Radar(radar) });
            outbox.push(Delivery::text(i, YOUR_GRID));
            let fleet = self.players[i].grid.duplicate();
            outbox.push(Delivery { to: i, notice: Notice::Fleet(fleet) });
            i = i + 1;
        }
        assert(outbox_view(outbox@) =~= grid_notices(self@, width, height));
        outbox
    }

    /// Opens the turn of the player at place `i`.
    ///
    /// If every ship of that player is sunk, the match is over: their
    /// opponent has won, both are told, and the roster is emptied.
    /// Otherwise the grids are displayed, the player is asked for a target
    /// and the others are told whose turn it is; the engine then waits for
    /// the player's token.
    pub fn open_turn(&mut self, i: usize, width: u8, height: u8) -> (step: Step)
        requires
            old(self).admits(Stage::TurnOf(i)),
        ensures
            final(self).admits(step.stage),
            final(self).wf(),
            roster_sound(old(self)@) ==> roster_sound(final(self)@),
            !step.pause,
            fleet_sunk(old(self)@[i as int].grid.fleet) ==> {
                &&& step.stage == Stage::MatchOver
                &&& final(self)@ == Seq::<PlayerView>::empty()
                &&& outbox_view(step.outbox@) == win_notices(old(self)@, i as int)
            },
            !fleet_sunk(old(self)@[i as int].grid.fleet) ==> {
                &&& step.stage == Stage::Aiming(i)
                &&& final(self)@ == old(self)@
                &&& outbox_view(step.outbox@) == grid_notices(old(self)@, width, height)
                    + turn_notices(old(self)@, i as int)
            },
    {
        if self.players[i].grid.all_sunk() {
            let mut outbox: Vec<Delivery> = Vec::new();
            let at = self.opponent_index(i);
            let text = won_notice(self.players[at].name.as_str());
            outbox.push(Delivery { to: i, notice: Notice::Text(text) });
            outbox.push(Delivery::text(at, YOU_WON));
            self.players.clear();
            assert(self@ =~= Seq::<PlayerView>::empty());
            assert(outbox_view(outbox@) =~= win_notices(old(self)@, i as int));
            return Step { stage: Stage::MatchOver, outbox, pause: false };
        }
        let mut outbox = self.show_grid(width, height);
        let ghost shown = outbox@;
        assert(shown.len() == outbox_view(shown).len());
        let text = prompt_notice(self.opponent(i).name.as_str());
        outbox.push(Delivery { to: i, notice: Notice::Text(text) });
        let mut j: usize = 0;
        while j < MAX_PLAYERS
            invariant
                0 <= j <= MAX_PLAYERS,
                i < MAX_PLAYERS,
                self == old(self),
                self@.len() == MAX_PLAYERS,
                shown.len() == 3 * MAX_PLAYERS,
                outbox_view(shown) == grid_notices(self@, width, height),
                outbox@.len() == shown.len() + 1 + if j <= i { j as int } else { j - 1 },
                forall|k: int| 0 <= k < shown.len() ==> outbox@[k] == shown[k],
                outbox@[shown.len() as int]@ == text_to(
                    i as int,
                    prompt_text(self@[opponent_of(i as int)].name),
                ),
                forall|k: int|
                    0 <= k < outbox@.len() - shown.len() - 1 ==> (#[trigger] outbox@[shown.len() + 1
                        + k])@ == text_to(
                        if k < i { k } else { k + 1 },
                        turn_text(self@[i as int].name),
                    ),
            decreases MAX_PLAYERS - j,
        {
            if j != i {
                let text = turn_notice(self.players[i].name.as_str());
                outbox.push(Delivery { to: j, notice: Notice::Text(text) });
            }
            j = j + 1;
        }
        proof {
            let expected = grid_notices(self@, width, height) + turn_notices(self@, i as int);
            assert(outbox_view(shown) == grid_notices(self@, width, height));
            assert(outbox_view(outbox@).len() == expected.len());
            assert forall|k: int| 0 <= k < expected.len() implies outbox_view(outbox@)[k]
                == expected[k] by {
                if k < shown.len() {
                    assert(outbox_view(shown)[k] == shown[k]@);
                } else if k > shown.len() {
                    let d = k - shown.len() - 1;
                    assert(outbox@[shown.len() + 1 + d] == outbox@[k]);
                }
            }
            assert(outbox_view(outbox@) =~= expected);
        }
        Step { stage: Stage::Aiming(i), outbox, pause: false }
    }

    /// Takes the token of the player at place `i`, who was asked for a
    /// target.
    ///
    /// A token that names no cell of a grid of the given size changes
    /// nothing: the player is told so and is next again. Otherwise the shot
    /// is recorded on the grid of the player's opponent and lands there; the
    /// player is told the outcome and how many ships the opponent has
    /// left, and the opponent is told where the shot went. After a hit the
    /// same player is next, after a miss their opponent.
    pub fn shoot(&mut self, i: usize, token: &str, width: u8, height: u8) -> (step: Step)
        requires
            old(self).admits(Stage::Aiming(i)),
        ensures
            final(self).admits(step.stage),
            final(self).wf(),
            roster_sound(old(self)@) ==> roster_sound(final(self)@),
            !step.pause,
            (forall|x: u8, y: u8| !#[trigger] names_cell(token@, x, y, width, height)) ==> {
                &&& step.stage == Stage::TurnOf(i)
                &&& final(self)@ == old(self)@
                &&& outbox_view(step.outbox@) == seq![text_to(i as int, INVALID_TARGET@)]
            },
            forall|x: u8, y: u8| #[trigger]
                names_cell(token@, x, y, width, height) ==> {
                    let c = Coordinate { x, y, is_hit: false };
                    &&& step.stage == Stage::TurnOf(next_turn(old(self)@, i as int, c) as usize)
                    &&& final(self)@ == after_shot(old(self)@, i as int, c)
                    &&& outbox_view(step.outbox@) == shot_notices(old(self)@, i as int, c)
                },
    {
        let mut outbox: Vec<Delivery> = Vec::new();
        match Coordinate::parse(token, width, height) {
            Err(_) => {
                outbox.push(Delivery::text(i, INVALID_TARGET));
                assert(outbox_view(outbox@) =~= seq![text_to(i as int, INVALID_TARGET@)]);
                Step { stage: Stage::TurnOf(i), outbox, pause: false }
            },
            Ok(c) => {
                proof {
                    assert forall|x: u8, y: u8| #[trigger]
                        names_cell(token@, x, y, width, height) implies x == c.x && y == c.y by {
                        crate::grid::lemma_token_names_one_cell(x, y, c.x, c.y);
                    }
                }
                let at = self.opponent_index(i);
                let is_hit = self.players[at].grid.fire(c);
                assert(self@ =~= after_shot(old(self)@, i as int, c));
                outbox.push(Delivery::text(i, if is_hit { HIT } else { MISSED }));
                let left = self.players[at].grid.remaining();
                let text = remaining_notice(self.players[at].name.as_str(), left);
                outbox.push(Delivery { to: i, notice: Notice::Text(text) });
                let text = firing_notice(self.players[i].name.as_str(), token);
                outbox.push(Delivery { to: at, notice: Notice::Text(text) });
                assert(outbox_view(outbox@) =~= shot_notices(old(self)@, i as int, c));
                let next = if is_hit { i } else { at };
                Step { stage: Stage::TurnOf(next), outbox, pause: false }
            },
        }
    }
}

} // verus!
