//! The notices that the engine asks its caller to deliver, with their
//! exact wording.

use crate::grid::{Grid, GridView};
use crate::numeral::{decimal, decimal_text};
use vstd::prelude::*;

verus! {

/// Sent to the first player who joins.
pub const WAITING: &'static str = "Waiting for opponent...\n";

/// Heads the display of a player's own grid.
pub const YOUR_GRID: &'static str = "\nYour grid:";

/// Sent to a player whose token names no cell.
pub const INVALID_TARGET: &'static str = "Your missile went to space!\n";

/// Sent to a player whose shot landed on a ship.
pub const HIT: &'static str = "Hit!\n";

/// Sent to a player whose shot landed on no ship.
pub const MISSED: &'static str = "Missed.\n";

/// Sent to the winner of a match.
pub const YOU_WON: &'static str = "You won!\n";

/// Sent to whoever connects while the lobby is full.
pub const LOBBY_FULL: &'static str = "Lobby is full.";

/// Tells a player the name of the opponent that they fire at.
pub open spec fn opponent_text(name: Seq<char>) -> Seq<char> {
    "Your opponent is "@ + name + "\n"@
}

/// One step of the countdown before a match.
pub open spec fn countdown_text(remaining: nat) -> Seq<char> {
    "Game starts in "@ + decimal(remaining) + "...\n"@
}

/// Asks a player for a target on the grid of the opponent called `name`.
pub open spec fn prompt_text(name: Seq<char>) -> Seq<char> {
    "Your turn to shoot "@ + name + ": "@
}

/// Tells the others that it is the turn of the player called `name`.
pub open spec fn turn_text(name: Seq<char>) -> Seq<char> {
    name + "'s turn.\n"@
}

/// Tells a player how many ships the opponent called `name` has left.
pub open spec fn remaining_text(name: Seq<char>, ships: nat) -> Seq<char> {
    name + " has "@ + decimal(ships) + " ships remaining.\n"@
}

/// Tells a player that the player called `name` fired at the cell that
/// `token` names.
pub open spec fn firing_text(name: Seq<char>, token: Seq<char>) -> Seq<char> {
    name + " is firing at "@ + token + "\n"@
}

/// Tells the loser that the player called `name` has won.
pub open spec fn won_text(name: Seq<char>) -> Seq<char> {
    name + " won.\n"@
}

/// The mathematical content of a notice.
pub enum NoticeView {
    /// A line of text, to be sent as it is.
    Text(Seq<char>),
    /// What a player may see of the opponent's grid, to be drawn.
    Radar(GridView),
    /// A player's own grid with its fleet, to be drawn.
    Fleet(GridView),
}

/// What is to be sent to a player.
#[derive(Debug)]
pub enum Notice {
    /// A line of text, to be sent as it is.
    Text(String),
    /// What a player may see of the opponent's grid, to be drawn: each
    /// ship is one cell that was fired at, marked if the shot hit.
    Radar(Grid),
    /// A player's own grid with its fleet, to be drawn.
    Fleet(Grid),
}

impl View for Notice {
    type V = NoticeView;

    open spec fn view(&self) -> NoticeView {
        match self {
            Notice::Text(text) => NoticeView::Text(text@),
            Notice::Radar(grid) => NoticeView::Radar(grid@),
            Notice::Fleet(grid) => NoticeView::Fleet(grid@),
        }
    }
}

/// The mathematical content of a delivery.
pub struct DeliveryView {
    /// The place in the roster of the player to send to.
    pub to: int,
    /// What to send.
    pub notice: NoticeView,
}

/// A notice together with the player to send it to.
#[derive(Debug)]
pub struct Delivery {
    /// The place in the roster of the player to send to.
    pub to: usize,
    /// What to send.
    pub notice: Notice,
}

impl View for Delivery {
    type V = DeliveryView;

    open spec fn view(&self) -> DeliveryView {
        DeliveryView { to: self.to as int, notice: self.notice@ }
    }
}

/// The delivery of the text `text` to the player at place `to`.
pub open spec fn text_to(to: int, text: Seq<char>) -> DeliveryView {
    DeliveryView { to, notice: NoticeView::Text(text) }
}

/// The mathematical content of a list of deliveries, in order.
pub open spec fn outbox_view(outbox: Seq<Delivery>) -> Seq<DeliveryView> {
    Seq::new(outbox.len(), |k: int| outbox[k]@)
}

impl Delivery {
    /// The delivery of a copy of `text` to the player at place `to`.
    pub fn text(to: usize, text: &str) -> (delivery: Delivery)
        ensures
            delivery@ == text_to(to as int, text@),
    {
        Delivery { to, notice: Notice::Text(String::from_str(text)) }
    }
}

/// Words the notice that names a player's opponent.
pub fn opponent_notice(name: &str) -> (text: String)
    ensures
        text@ == opponent_text(name@),
{
    let mut text = String::from_str("Your opponent is ");
    text.append(name);
    text.append("\n");
    text
}

/// Words one step of the countdown.
pub fn countdown_notice(remaining: u8) -> (text: String)
    ensures
        text@ == countdown_text(remaining as nat),
{
    let mut text = String::from_str("Game starts in ");
    let number = decimal_text(remaining as usize);
    text.append(number.as_str());
    text.append("...\n");
    text
}

/// Words the prompt for a target.
pub fn prompt_notice(name: &str) -> (text: String)
    ensures
        text@ == prompt_text(name@),
{
    let mut text = String::from_str("Your turn to shoot ");
    text.append(name);
    text.append(": ");
    text
}

/// Words the notice of whose turn it is.
pub fn turn_notice(name: &str) -> (text: String)
    ensures
        text@ == turn_text(name@),
{
    let mut text = String::from_str(name);
    text.append("'s turn.\n");
    text
}

/// Words the notice of how many ships an opponent has left.
pub fn remaining_notice(name: &str, ships: usize) -> (text: String)
    ensures
        text@ == remaining_text(name@, ships as nat),
{
    let mut text = String::from_str(name);
    text.append(" has ");
    let number = decimal_text(ships);
    text.append(number.as_str());
    text.append(" ships remaining.\n");
    text
}

/// Words the notice of a shot at the cell that `token` names.
pub fn firing_notice(name: &str, token: &str) -> (text: String)
    ensures
        text@ == firing_text(name@, token@),
{
    let mut text = String::from_str(name);
    text.append(" is firing at ");
    text.append(token);
    text.append("\n");
    text
}

/// Words the notice that tells the loser who has won.
pub fn won_notice(name: &str) -> (text: String)
    ensures
        text@ == won_text(name@),
{
    let mut text = String::from_str(name);
    text.append(" won.\n");
    text
}

} // verus!
