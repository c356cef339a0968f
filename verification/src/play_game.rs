use vstd::prelude::*;

use crate::color::Color;
use crate::game::{game_after_move, move_applies, move_compatible_for, Game};
use crate::move_generation::MoveGenerator;
use crate::moves::Move;
use crate::players::PlayerInterface;

verus! {

/// The readiness protocol, waiting for its first players.
pub struct WaitingForPlayers {
    possible_white_player: Option<Box<dyn PlayerInterface>>,
    possible_black_player: Option<Box<dyn PlayerInterface>>,
}

/// Both seats taken; the match can start.
pub struct AllConnected {
    white_player: Box<dyn PlayerInterface>,
    black_player: Box<dyn PlayerInterface>,
}

/// A running match: the game together with both players.
pub struct Playing {
    game: Game,
    white_player: Box<dyn PlayerInterface>,
    black_player: Box<dyn PlayerInterface>,
}

/// What attaching a player led to.
pub enum ConnectResult {
    AlreadyConnected,
    Waiting(PlayGame<WaitingForPlayers>),
    Ready(PlayGame<AllConnected>),
}

/// How one turn of a running match ended.
pub enum TurnResult {
    Checkmate,
    Stalemate,
    InProgress,
    PlayerNotMakingMoves,
}

impl ConnectResult {
    /// The ready match this result holds; meant only for results known
    /// to be ready.
    pub fn expect_ready(self) -> (r: PlayGame<AllConnected>)
        requires
            self is Ready,
    {
        match self {
            ConnectResult::Ready(game) => game,
            _ => unreached(),
        }
    }

    /// The still-waiting protocol this result holds; meant only for
    /// results known to be waiting.
    pub fn expect_waiting(self) -> (r: PlayGame<WaitingForPlayers>)
        requires
            self is Waiting,
    {
        match self {
            ConnectResult::Waiting(game) => game,
            _ => unreached(),
        }
    }
}

/// The readiness protocol around a match: players attach one by one,
/// and only a fully connected pair can start playing.
pub struct PlayGame<State> {
    inner: State,
}

impl PlayGame<WaitingForPlayers> {
    pub closed spec fn white_attached(self) -> bool {
        self.inner.possible_white_player is Some
    }

    pub closed spec fn black_attached(self) -> bool {
        self.inner.possible_black_player is Some
    }

    /// An empty protocol: both seats free.
    pub fn new() -> (r: PlayGame<WaitingForPlayers>)
        ensures
            !r.white_attached(),
            !r.black_attached(),
    {
        PlayGame {
            inner: WaitingForPlayers { possible_white_player: None, possible_black_player: None },
        }
    }

    /// Attaches a player to the seat of `color`: refused when that seat
    /// is taken, ready when the other seat was already taken, waiting
    /// otherwise.
    pub fn connect_player(self, player: Box<dyn PlayerInterface>, color: Color) -> (r:
        ConnectResult)
        ensures
            r is AlreadyConnected <==> (if color == Color::White {
                self.white_attached()
            } else {
                self.black_attached()
            }),
            r is Ready <==> (if color == Color::White {
                !self.white_attached() && self.black_attached()
            } else {
                !self.black_attached() && self.white_attached()
            }),
            r matches ConnectResult::Waiting(w) ==> (if color == Color::White {
                w.white_attached() && !w.black_attached()
            } else {
                w.black_attached() && !w.white_attached()
            }),
    {
        if color == Color::White {
            if self.inner.possible_white_player.is_some() {
                ConnectResult::AlreadyConnected
            } else {
                match self.inner.possible_black_player {
                    Some(black_player) => ConnectResult::Ready(
                        PlayGame {
                            inner: AllConnected { white_player: player, black_player },
                        },
                    ),
                    None => ConnectResult::Waiting(
                        PlayGame {
                            inner: WaitingForPlayers {
                                possible_white_player: Some(player),
                                possible_black_player: None,
                            },
                        },
                    ),
                }
            }
        } else {
            if self.inner.possible_black_player.is_some() {
                ConnectResult::AlreadyConnected
            } else {
                match self.inner.possible_white_player {
                    Some(white_player) => ConnectResult::Ready(
                        PlayGame {
                            inner: AllConnected { white_player, black_player: player },
                        },
                    ),
                    None => ConnectResult::Waiting(
                        PlayGame {
                            inner: WaitingForPlayers {
                                possible_white_player: None,
                                possible_black_player: Some(player),
                            },
                        },
                    ),
                }
            }
        }
    }
}

impl PlayGame<AllConnected> {
    /// Starts the match on the given game.
    pub fn start(self, game: Game) -> (r: PlayGame<Playing>)
        requires
            game.wf(),
        ensures
            r.game_model() == game@,
            r.wf(),
    {
        PlayGame {
            inner: Playing {
                game,
                white_player: self.inner.white_player,
                black_player: self.inner.black_player,
            },
        }
    }
}

impl PlayGame<Playing> {
    pub closed spec fn wf(self) -> bool {
        self.inner.game.wf()
    }

    pub closed spec fn game_model(self) -> crate::game::GameModel {
        self.inner.game@
    }

    /// Runs one turn: with no legal move the match is over; otherwise the
    /// side to move's player is asked, up to ten times, for a move, which
    /// is then applied. A player who keeps returning nothing, or whose
    /// move cannot be applied, forfeits the turn as not making moves.
    /// A turn in progress has applied exactly one legal move of the side
    /// to move; every other outcome leaves the game untouched. A finished
    /// match always reports itself as checkmate, stalemate included, as
    /// the original rules loop did.
    pub fn wait_for_move(&mut self) -> (r: TurnResult)
        requires
            old(self).wf(),
        ensures
            final(self).wf(),
            r is Checkmate ==> final(self).game_model() == old(self).game_model(),
            r is PlayerNotMakingMoves ==> final(self).game_model() == old(self).game_model(),
            !(r is Stalemate),
            r is InProgress ==> exists|m: Move|
                {
                    &&& move_applies(old(self).game_model(), m)
                    &&& move_compatible_for(
                        old(self).game_model().board,
                        old(self).game_model().turn,
                        m,
                    )
                    &&& final(self).game_model() == #[trigger] game_after_move(
                        old(self).game_model(),
                        m,
                    )
                },
    {
        let current = self.inner.game.current_turn();

        if MoveGenerator::new(&self.inner.game).all_legal_moves(current).len() == 0 {
            return TurnResult::Checkmate;
        }

        let mut try_counter: u32 = 10;
        loop
            invariant
                self.wf(),
                self.game_model() == old(self).game_model(),
                try_counter >= 1,
            decreases try_counter,
        {
            let chosen = match self.inner.game.current_turn() {
                Color::White => self.inner.white_player.make_move(&self.inner.game),
                Color::Black => self.inner.black_player.make_move(&self.inner.game),
            };
            if let Some(mv) = chosen {
                // The player may be arbitrary code, so its move is
                // validated against the legal-move list before it is
                // applied.
                let legal = MoveGenerator::new(&self.inner.game).all_legal_moves(
                    self.inner.game.current_turn(),
                );
                match crate::players::find_matching_move(&legal, &mv) {
                    Some(matched) => {
                        proof {
                            let j = choose|j: int|
                                0 <= j < legal@.len() && legal@[j] == matched
                                    && crate::players::realises_intent(matched, mv);
                        }
                        let ghost before = self.game_model();
                        let applied = self.inner.game.make_move(matched);
                        proof {
                            assert(applied is Ok);
                            assert(self.game_model() == game_after_move(before, matched));
                        }
                        return TurnResult::InProgress;
                    },
                    None => {},
                }
            }
            try_counter = try_counter - 1;
            if try_counter == 0 {
                return TurnResult::PlayerNotMakingMoves;
            }
        }
    }

    pub fn game(&self) -> (r: &Game)
        ensures
            r@ == self.game_model(),
    {
        &self.inner.game
    }
}

} // verus!
