use chust::color::Color;
use chust::fen::Fen;
use chust::game::Game;
use chust::move_generation::MoveGenerator;
use chust::perft::PerfTest;
use chust::play_game::{ConnectResult, PlayGame, TurnResult};
use chust::players::bot_random::BotRandom;
use chust::players::PlayerInterface;

// Reversibility: for every legal move of a mixed middle-game position,
// making and unmaking it restores the game exactly.
#[test]
fn make_unmake_restores_game() {
    let fens = [
        "rnbqkbnr/pppppppp/8/8/8/8/PPPPPPPP/RNBQKBNR w KQkq - 0 1",
        "r3k2r/p1ppqpb1/bn2pnp1/3PN3/1p2P3/2N2Q1p/PPPBBPPP/R3K2R w KQkq - 0 1",
        "8/8/8/2Pp4/8/8/8/4K2k w - d6 0 1",
    ];
    for fen in fens {
        let mut game = Fen::parse_game(fen).unwrap();
        let before = game.clone();
        let moves = MoveGenerator::new(&game).all_legal_moves(game.current_turn());
        assert!(!moves.is_empty());
        for mov in moves {
            game.make_move(mov).unwrap();
            game.unmake_move();
            assert_eq!(game, before);
        }
    }
}

// Move count determinism: the standard perft baseline.
#[test]
fn perft_baseline_counts() {
    let game = Game::default();
    assert_eq!(PerfTest::new(game.clone(), 1).run_perft().node_count(), 20);
    assert_eq!(PerfTest::new(game.clone(), 2).run_perft().node_count(), 400);
    assert_eq!(PerfTest::new(game, 3).run_perft().node_count(), 8902);
}

// Round-trip codec: the standard starting record survives a parse and
// re-encode, and the re-parsed game is identical.
#[test]
fn fen_round_trip_start_position() {
    let record = "rnbqkbnr/pppppppp/8/8/8/8/PPPPPPPP/RNBQKBNR w KQkq - 0 1";
    let game = Fen::parse_game(record).unwrap();
    let encoded = Fen::from_game(&game);
    assert_eq!(encoded, record);
    let reparsed = Fen::parse_game(&encoded).unwrap();
    assert_eq!(reparsed, game);
}

// The search never leaves the game it explored mutated.
#[test]
fn search_restores_game() {
    let mut game = Fen::parse_game("k7/8/8/3p4/4P3/8/8/K7 w - - 0 1").unwrap();
    let before = game.clone();
    let best = chust::search::best_move(&mut game);
    assert!(best.is_some());
    assert_eq!(game, before);
}

// The searched move is one of the legal moves of the position.
#[test]
fn search_picks_a_legal_move() {
    let mut game = Fen::parse_game("k7/8/8/3p4/4P3/8/8/K7 w - - 0 1").unwrap();
    let legal = MoveGenerator::new(&game).all_legal_moves(Color::White);
    let (mov, _score) = chust::search::best_move(&mut game).unwrap();
    assert!(legal.contains(&mov));
}

// The random player picks only legal moves, and none where none exist.
#[test]
fn bot_random_picks_legal_moves() {
    let game = Game::default();
    let legal = MoveGenerator::new(&game).all_legal_moves(Color::White);
    let bot = chust::players::bot_random::BotRandom;
    for _ in 0..20 {
        let mov = bot.make_move(&game).unwrap();
        assert!(legal.contains(&mov));
    }
    // Stalemate: black to move has no legal move.
    let stuck = Fen::parse_game("7k/5Q2/6K1/8/8/8/8/8 b - - 0 1").unwrap();
    assert!(bot.make_move(&stuck).is_none());
}

// The readiness protocol: seats fill one by one and refuse double
// connection; a full pair can run turns.
#[test]
fn play_game_connection_protocol() {
    let waiting = PlayGame::new();
    let waiting = waiting
        .connect_player(Box::new(BotRandom), Color::White)
        .expect_waiting();
    let again = waiting.connect_player(Box::new(BotRandom), Color::White);
    assert!(matches!(again, ConnectResult::AlreadyConnected));
    // The seat survives the refused attempt only in the original value,
    // so rebuild the pair from scratch.
    let waiting = PlayGame::new()
        .connect_player(Box::new(BotRandom), Color::Black)
        .expect_waiting();
    let ready = waiting
        .connect_player(Box::new(BotRandom), Color::White)
        .expect_ready();
    let mut playing = ready.start(Game::default());
    let result = playing.wait_for_move();
    assert!(matches!(result, TurnResult::InProgress));
    assert_eq!(playing.game().current_turn(), Color::Black);
}

// Per-root-move counts add up to the total.
#[test]
fn perft_nodes_sum_to_total() {
    let game = Game::default();
    let mut perft = PerfTest::new(game, 2);
    let results = perft.run_perft();
    let total: u64 = results.nodes().iter().map(|(_, n)| n).sum();
    assert_eq!(total, results.node_count());
    assert_eq!(results.nodes().len(), 20);
}
