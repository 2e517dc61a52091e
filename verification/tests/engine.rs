use toybox::amidar::Amidar;
use toybox::amidar::EnemyPlayerState;
use toybox::board::Board;
use toybox::board::Tile;
use toybox::direction::Direction;
use toybox::geometry::TilePoint;
use toybox::geometry::WorldPoint;
use toybox::input::Input;
use toybox::mob::MovementAI;
use toybox::random::Gen;

#[test]
fn it_works() {
    assert_eq!(2 + 2, 4);
}

fn default_board() -> Board {
    let cfg = Amidar::default();
    Board::try_new(&cfg.board).expect("the stock layout is valid")
}

fn junction_pair() -> (TilePoint, TilePoint) {
    // the stock board's top edge runs between the junctions (0,0) and (4,0)
    (TilePoint { tx: 0, ty: 0 }, TilePoint { tx: 4, ty: 0 })
}

#[test]
fn painting_idempotence() {
    let mut b = default_board();
    let (a, c) = junction_pair();
    let u1 = b.paint_between(&a, &c);
    assert!(u1.horizontal > 0);
    let tiles_after_first = b.tiles.clone();
    let u2 = b.paint_between(&a, &c);
    assert_eq!(u2.vertical, 0);
    assert_eq!(u2.horizontal, 0);
    assert_eq!(u2.num_boxes, 0);
    assert!(!u2.triggers_chase);
    assert_eq!(b.tiles, tiles_after_first);
}

#[test]
fn box_cache_coherence() {
    let mut b = default_board();
    let (a, c) = junction_pair();
    let _ = b.paint_between(&a, &c);
    // the cached flag of every box equals the AND of its boundary cells
    for gb in &b.boxes {
        let mut all = true;
        for y in gb.top_left.ty..=gb.bottom_right.ty {
            for x in gb.top_left.tx..=gb.bottom_right.tx {
                let edge = x == gb.top_left.tx || x == gb.bottom_right.tx || y == gb.top_left.ty
                    || y == gb.bottom_right.ty;
                if edge && !b.painted_at(x, y) {
                    all = false;
                }
            }
        }
        assert_eq!(gb.painted, all);
    }
}

fn paint_box_boundary(b: &mut Board, tl: (i32, i32), br: (i32, i32)) -> Vec<bool> {
    let corners = [
        (tl, (br.0, tl.1)),
        ((br.0, tl.1), br),
        (br, (tl.0, br.1)),
        ((tl.0, br.1), tl),
    ];
    let mut triggers = Vec::new();
    for (p, q) in corners.iter() {
        let u = b.paint_between(
            &TilePoint { tx: p.0, ty: p.1 },
            &TilePoint { tx: q.0, ty: q.1 },
        );
        triggers.push(u.triggers_chase);
    }
    triggers
}

#[test]
fn mode_trigger_fires_once_on_last_box() {
    let mut b = default_board();
    // paint the four chase-marked corner boxes; the trigger must fire
    // exactly once, on the completion of the last one
    let mut fired = Vec::new();
    fired.extend(paint_box_boundary(&mut b, (0, 0), (4, 3)));
    fired.extend(paint_box_boundary(&mut b, (8, 0), (12, 3)));
    fired.extend(paint_box_boundary(&mut b, (0, 3), (4, 6)));
    assert!(fired.iter().all(|f| !f), "no trigger before the last box");
    let last = paint_box_boundary(&mut b, (8, 3), (12, 6));
    assert_eq!(last.iter().filter(|f| **f).count(), 1, "exactly one trigger");
    // painting again cannot re-trigger without a reset
    let again = paint_box_boundary(&mut b, (8, 3), (12, 6));
    assert!(again.iter().all(|f| !f));
}

#[test]
fn snapshot_round_trip() {
    let mut sim = Amidar::default();
    let mut st = sim.new_game().expect("default config is valid");
    let mut input = Input::new();
    input.right = true;
    for _ in 0..40 {
        st.update_mut(input);
    }
    let text = st.to_snapshot();
    let st2 = sim.new_state_from_snapshot(&text).expect("own snapshot restores");
    assert_eq!(st2.score(), st.score());
    assert_eq!(st2.lives(), st.lives());
    assert_eq!(st2.level(), st.level());
    assert_eq!(st2.state.player.position, st.state.player.position);
    assert_eq!(st2.state.enemies, st.state.enemies);
    assert_eq!(st2.state.board.tiles, st.state.board.tiles);
    // and the restored state snapshots to the identical text
    assert_eq!(st2.to_snapshot(), text);
}

#[test]
fn determinism_same_seed_same_inputs() {
    let mut sim1 = Amidar::default();
    let mut sim2 = Amidar::default();
    sim1.reset_seed(99);
    sim2.reset_seed(99);
    let mut a = sim1.new_game().unwrap();
    let mut b = sim2.new_game().unwrap();
    let inputs = [
        Input { right: true, ..Input::new() },
        Input { down: true, ..Input::new() },
        Input { left: true, ..Input::new() },
        Input { up: true, ..Input::new() },
    ];
    for frame in 0..120 {
        let i = inputs[frame % 4];
        a.update_mut(i);
        b.update_mut(i);
        assert_eq!(a.to_snapshot(), b.to_snapshot(), "frame {}", frame);
    }
}

#[test]
fn collision_lowest_index_enemy_is_caught() {
    let mut sim = Amidar::default();
    let mut st = sim.new_game().unwrap();
    // two enemies on the player's tile during chase mode
    let p = st.state.player.position;
    st.state.enemies[0].position = p;
    st.state.enemies[0].step = None;
    st.state.enemies[1].position = p;
    st.state.enemies[1].step = None;
    st.state.chase_timer = 10;
    assert_eq!(st.check_enemy_player_collision(), EnemyPlayerState::EnemyCatch(0));
    st.update_mut(Input::new());
    assert!(st.state.enemies[0].caught);
    assert!(!st.state.enemies[1].caught, "only the lowest index is caught this frame");
}

#[test]
fn collision_normal_mode_is_death() {
    let mut sim = Amidar::default();
    let mut st = sim.new_game().unwrap();
    let p = st.state.player.position;
    st.state.enemies[2].position = p;
    st.state.chase_timer = 0;
    assert_eq!(st.check_enemy_player_collision(), EnemyPlayerState::PlayerDeath);
    let lives = st.lives();
    st.update_mut(Input::new());
    assert_eq!(st.lives(), lives - 1);
}

#[test]
fn no_reversal_at_junction_with_alternative() {
    // an L-shaped corridor: the corner junction offers Left (reversal) and
    // Down; a mover that just travelled rightward must turn down
    let lines: Vec<String> = vec!["===".to_owned(), "  =".to_owned(), "  =".to_owned()];
    let board = Board::try_new(&lines).expect("valid layout");
    let mut ai = MovementAI::EnemyRandomMvmt {
        start: TilePoint { tx: 2, ty: 0 },
        start_dir: Direction::Right,
        dir: Direction::Right,
    };
    let here = TilePoint { tx: 2, ty: 0 };
    let player = TilePoint { tx: 0, ty: 0 };
    let mut rng = Gen::new(7);
    let dest = ai.choose_next_tile(&board, &here, &player, &mut rng);
    assert_eq!(dest, Some(TilePoint { tx: 2, ty: 2 }), "must go down, not back left");
    match ai {
        MovementAI::EnemyRandomMvmt { dir, .. } => assert_eq!(dir, Direction::Down),
        _ => unreachable!(),
    }
}

#[test]
fn target_seeker_lock_is_sticky() {
    let board = default_board();
    let mut ai = MovementAI::EnemyTargetPlayer {
        start: TilePoint { tx: 0, ty: 0 },
        start_dir: Direction::Right,
        vision_distance: 3,
        dir: Direction::Right,
        player_seen: None,
    };
    let here = TilePoint { tx: 0, ty: 0 };
    let near = TilePoint { tx: 2, ty: 0 };
    let mut rng = Gen::new(5);
    let _ = ai.choose_next_tile(&board, &here, &near, &mut rng);
    match ai {
        MovementAI::EnemyTargetPlayer { player_seen, .. } => {
            assert_eq!(player_seen, Some(near), "player inside the radius is locked")
        },
        _ => unreachable!(),
    }
    // the player escapes far outside the vision radius; the lock persists
    let far = TilePoint { tx: 12, ty: 6 };
    let _ = ai.choose_next_tile(&board, &here, &far, &mut rng);
    match ai {
        MovementAI::EnemyTargetPlayer { player_seen, .. } => {
            assert_eq!(player_seen, Some(near), "the lock is sticky after escape")
        },
        _ => unreachable!(),
    }
}

#[test]
fn board_rejects_bad_layouts() {
    let empty: Vec<String> = vec![];
    assert!(Board::try_new(&empty).is_none());
    let ragged: Vec<String> = vec!["===".to_owned(), "==".to_owned()];
    assert!(Board::try_new(&ragged).is_none());
    let bad_char: Vec<String> = vec!["=x=".to_owned()];
    assert!(Board::try_new(&bad_char).is_none());
}

#[test]
fn restore_rejects_garbage() {
    let sim = Amidar::default();
    assert!(sim.new_state_from_snapshot("not a snapshot").is_none());
    assert!(sim.new_state_from_snapshot("").is_none());
    assert!(sim.new_state_from_snapshot("0000000001 ").is_none());
}

#[test]
fn queries_answer_and_fail_typed() {
    let mut sim = Amidar::default();
    let st = sim.new_game().unwrap();
    assert_eq!(st.query("score", "").unwrap(), "0000000000 ");
    assert_eq!(st.query("lives", "").unwrap(), "0000000003 ");
    assert_eq!(st.query("num_enemies", "").unwrap(), "0000000005 ");
    assert_eq!(st.query("board_size", "").unwrap(), "0000000013 0000000007 ");
    assert_eq!(st.query("no_such_thing", ""), Err(toybox::QueryError::NoSuchQuery));
    assert_eq!(st.query("enemy_tile", "bogus"), Err(toybox::QueryError::BadInputArg));
    assert_eq!(st.query("enemy_tile", "0000000099 "), Err(toybox::QueryError::BadInputArg));
    assert!(st.query("enemy_tile", "0000000000 ").is_ok());
}

#[test]
fn painting_scores_and_tiles() {
    let mut sim = Amidar::default();
    let mut st = sim.new_game().unwrap();
    // march the player right along the middle rail; arriving at the next
    // junction paints the traversed edge and scores it
    let mut input = Input::new();
    input.right = true;
    for _ in 0..40 {
        st.update_mut(input);
    }
    assert!(st.score() > 0, "painting the first edge scores");
    let b = &st.state.board;
    assert!(b.painted_at(5, 3) || b.painted_at(6, 3), "mid-rail cells got painted");
}

#[test]
fn generator_is_deterministic_and_seedable() {
    let mut g1 = Gen::new(42);
    let mut g2 = Gen::new(42);
    for _ in 0..100 {
        assert_eq!(g1.next_u32(), g2.next_u32());
    }
    let mut g3 = Gen::new(43);
    let a: Vec<u32> = (0..8).map(|_| g1.next_u32()).collect();
    let b: Vec<u32> = (0..8).map(|_| g3.next_u32()).collect();
    assert_ne!(a, b, "different seeds diverge");
    let mut g0 = Gen::new(0);
    assert_eq!(g0.state, 1, "a zero seed becomes the unit state");
}

#[test]
fn word_text_format_is_exact() {
    let text = toybox::snapshot::render_words(&vec![42u32, 0, 4294967295]);
    assert_eq!(text, "0000000042 0000000000 4294967295 ");
    let back = toybox::snapshot::parse_words(&text).unwrap();
    assert_eq!(back, vec![42u32, 0, 4294967295]);
    assert!(toybox::snapshot::parse_words("123").is_none());
    assert!(toybox::snapshot::parse_words("00000000x1 ").is_none());
}

#[test]
fn world_tile_screen_conversions() {
    let t = TilePoint { tx: 3, ty: 2 };
    let w = t.to_world();
    assert_eq!(w, WorldPoint { x: 96, y: 64 });
    assert_eq!(w.to_tile(), t);
    let s = w.to_screen();
    assert_eq!((s.sx, s.sy), (12, 8));
    assert_eq!(t.manhattan_dist(&TilePoint { tx: 0, ty: 0 }), 5);
}

#[test]
fn level_advances_when_board_completes() {
    let mut sim = Amidar::default();
    let mut st = sim.new_game().unwrap();
    // paint every rail by hand, then step once
    let junctions: Vec<u32> = st.state.board.junctions.clone();
    let w = st.state.board.width as i32;
    for a in junctions.iter() {
        for b in junctions.iter() {
            let pa = TilePoint { tx: (*a as i32) % w, ty: (*a as i32) / w };
            let pb = TilePoint { tx: (*b as i32) % w, ty: (*b as i32) / w };
            if pa.tx == pb.tx || pa.ty == pb.ty {
                st.state.board.paint_between(&pa, &pb);
            }
        }
    }
    assert!(st.board_complete());
    st.update_mut(Input::new());
    assert_eq!(st.level(), 2);
    assert!(!st.board_complete(), "the board is rebuilt fresh");
}

#[test]
fn tile_classification() {
    let b = default_board();
    let (t, j) = b.classify_position(&WorldPoint { x: 0, y: 0 });
    assert_eq!(t, TilePoint { tx: 0, ty: 0 });
    assert!(j, "the corner is a junction");
    let (t2, j2) = b.classify_position(&WorldPoint { x: 2 * 32, y: 0 });
    assert_eq!(t2, TilePoint { tx: 2, ty: 0 });
    assert!(!j2, "mid-rail is not a junction");
    assert_eq!(b.tile_at(1, 1), Tile::Empty);
    assert_eq!(b.tile_at(0, 0), Tile::ChaseMarker);
    assert_eq!(b.tile_at(1, 0), Tile::Unpainted);
}

#[test]
fn repainting_an_edge_in_a_frame_adds_nothing() {
    let mut sim = Amidar::default();
    let mut st = sim.new_game().unwrap();
    let mut right = Input::new();
    right.right = true;
    // paint the middle rail rightward
    for _ in 0..40 {
        st.update_mut(right);
    }
    let score1 = st.score();
    let tiles1 = st.state.board.tiles.clone();
    assert!(score1 > 0);
    // walk back across the edge just painted: the repeated painting is a
    // zero-effect update — no score, no tile change, no box, no trigger
    let mut left = Input::new();
    left.left = true;
    for _ in 0..20 {
        st.update_mut(left);
    }
    assert_eq!(st.score(), score1, "repainting scores nothing");
    assert_eq!(st.state.board.tiles, tiles1, "tiles never revert");
}
