use toybox::amidar::Amidar;
use toybox::graphics::Drawable;
use toybox::input::AleAction;
use toybox::input::Input;
use toybox::newgame::populate_files;
use toybox::newgame::replace_all;
use toybox::pitfall::Pitfall;

#[test]
fn pitfall_walks_and_ticks() {
    let cfg = Pitfall::default();
    let mut st = cfg.new_game();
    assert_eq!(st.score(), 2000);
    assert_eq!(st.lives(), 2);
    assert_eq!(st.level(), 1);
    let x0 = st.state.player.x;
    let t0 = st.state.frames_remaining;
    let mut left = Input::new();
    left.left = true;
    st.update_mut(left);
    assert_eq!(st.state.player.x, x0 - 1);
    assert_eq!(st.state.frames_remaining, t0 - 1);
    let mut right = Input::new();
    right.right = true;
    st.update_mut(right);
    st.update_mut(right);
    assert_eq!(st.state.player.x, x0 + 1);
    st.update_mut(Input::new());
    assert_eq!(st.state.player.x, x0 + 1, "no input, no walking");
}

#[test]
fn replace_all_replaces_every_occurrence() {
    assert_eq!(replace_all("a $X b $X", "$X", "yo"), "a yo b yo");
    assert_eq!(replace_all("$X$X$X", "$X", "."), "...");
    assert_eq!(replace_all("nothing here", "$X", "."), "nothing here");
    assert_eq!(replace_all("abc", "", "zzz"), "abc");
    assert_eq!(replace_all("aaa", "aa", "b"), "ba", "scans left to right");
}

#[test]
fn populate_files_fills_the_templates() {
    let files = populate_files(
        "tb_demo",
        "demo",
        "Demo",
        "/",
        "name = \"$GAMENAME\"\n",
        "[dependencies]\n",
        "pub mod $GAMENAME; // $CLASSNAME\n",
        "pub struct $CLASSNAME;\n",
        "impl $CLASSNAME {}\n",
        "list: $GAMELIST\n",
        "\"demo\"",
    );
    assert_eq!(files.len(), 5);
    assert_eq!(files[0].0, "tb_demo/Cargo.toml");
    assert_eq!(files[0].1, "name = \"demo\"\n[dependencies]\n");
    assert_eq!(files[1].0, "tb_demo/src/lib.rs");
    assert_eq!(files[1].1, "pub mod demo; // Demo\n");
    assert_eq!(files[2].0, "tb_demo/src/types.rs");
    assert_eq!(files[2].1, "pub struct Demo;\n");
    assert_eq!(files[3].0, "tb_demo/src/demo.rs");
    assert_eq!(files[3].1, "impl Demo {}\n");
    assert_eq!(files[4].0, "toybox/src/lib.rs");
    assert_eq!(files[4].1, "list: \"demo\"\n");
}

#[test]
fn drawable_list_shape() {
    let mut sim = Amidar::default();
    let st = sim.new_game().unwrap();
    let out = st.draw();
    let w = st.state.board.width as usize;
    let h = st.state.board.height as usize;
    let n = st.state.enemies.len();
    assert_eq!(out.len(), 2 + w * h + n + 6);
    assert_eq!(out[0], Drawable::Clear(st.config.bg_color));
    match out[1] {
        Drawable::Rectangle { x, y, w, h, .. } => {
            assert_eq!((x, y, w, h), (0, 0, 4, 4));
        },
        _ => panic!("expected a tile rectangle"),
    }
    // six score digits, all zero on a fresh game
    for k in 0..6 {
        match out[2 + w * h + n + k] {
            Drawable::DigitSprite { digit, .. } => assert_eq!(digit, 0),
            _ => panic!("expected a digit sprite"),
        }
    }
}

#[test]
fn ale_actions_round_trip() {
    for code in [0, 1, 2, 3, 4, 5, 10, 11, 12, 13] {
        let a = AleAction::from_int(code).unwrap();
        assert_eq!(a.to_int(), code);
    }
    assert_eq!(AleAction::from_int(7), None);
    let i = AleAction::UPFIRE.to_input();
    assert!(i.up && i.button1 && !i.down);
}

#[test]
fn jump_makes_player_untouchable() {
    let mut sim = Amidar::default();
    let mut st = sim.new_game().unwrap();
    let p = st.state.player.position;
    st.state.enemies[0].position = p;
    st.state.enemies[0].step = None;
    let mut fire = Input::new();
    fire.button1 = true;
    let jumps = st.jumps();
    let lives = st.lives();
    // the jump starts this frame; the collision on the following frame is
    // ignored while the timer runs
    st.update_mut(fire);
    assert_eq!(st.jumps(), jumps - 1);
    st.update_mut(Input::new());
    assert_eq!(st.lives(), lives, "no death during a jump");
}

#[test]
fn config_snapshot_round_trip() {
    let cfg = Amidar::default();
    let text = cfg.to_snapshot().expect("the stock configuration is coverable");
    let back = Amidar::from_snapshot(&text).expect("own snapshot restores");
    assert_eq!(back, cfg);
    assert_eq!(back.to_snapshot().unwrap(), text);
    assert!(Amidar::from_snapshot("garbage").is_none());
}

#[test]
fn game_size_and_action_set() {
    let cfg = Amidar::default();
    assert_eq!(cfg.game_size(), (13 * 4, 7 * 4));
    let actions = cfg.legal_action_set();
    assert_eq!(actions.len(), 6);
}
