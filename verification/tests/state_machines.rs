use gravity_engine::audio::{
    audio_kind, decimal_string, display_name, format_label, frames_to_decode, is_stream_url,
    lower_extension, mod_apply, mod_toggle_event, playlist_title, state_word, AudioKind, ModEvent, ModInfo,
    RegularPlayerState,
};
use gravity_engine::input::{escape_action, route_left_click, ClickHits, ClickTarget, EscapeAction};
use gravity_engine::menus::{
    item_offset, menu_total_h, picker_cell_offset, picker_panel_size, picker_rows, spawn_color,
    submenu_h, ContextMenu, DragModeMenu, GravityButtons, MenuAction, MenuMotion, Spawner,
    SpawnerClick,
};
use gravity_engine::modes::{background_key, BgMode, BorderMode, DragMode, PressEffect, SpawnShape};
use gravity_engine::scene::{
    block_cell, dismissal_order, order_from_draws, palette_picks, remove_killed, ButtonFetch, Trail,
};

#[test]
fn border_key_cycles_walls_loop_kill() {
    let mut m = BorderMode::Default;
    let mut labels = vec![];
    for _ in 0..3 {
        labels.push(m.label());
        m = m.next();
    }
    assert!(m == BorderMode::Default);
    assert_eq!(labels, vec!["WALLS", "LOOP", "KILL"]);
    assert!(BorderMode::Kill.next() == BorderMode::Default);
    assert!(BorderMode::Default.has_side_walls());
    assert!(!BorderMode::Loop.has_side_walls() && !BorderMode::Kill.has_side_walls());
}

#[test]
fn other_modes_cycle() {
    let mut b = BgMode::Dark;
    for _ in 0..6 {
        b = b.next();
    }
    assert!(b == BgMode::Dark);
    assert_eq!(BgMode::Custom.label(), "Custom");
    let all = DragMode::all();
    assert_eq!(all.len(), 8);
    let mut d = DragMode::Spring;
    for k in 0..8 {
        assert!(d == all[k]);
        d = d.next();
    }
    assert!(d == DragMode::Spring);
    assert_eq!(DragMode::Slingshot.label(), "Slingshot");
    assert!(!DragMode::Spring.shows_field_panel() && DragMode::Bomb.shows_field_panel());
    assert!(DragMode::Bomb.press_effect() == PressEffect::Explode);
    assert!(DragMode::Orbit.press_effect() == PressEffect::Field);
    assert!(DragMode::Slingshot.press_effect() == PressEffect::Grab);
    assert_eq!(SpawnShape::all().len(), 5);
    assert_eq!(SpawnShape::Pentagon.spawn_name(), "__spawn__Pentagon");
}

#[test]
fn context_menu_geometry() {
    assert_eq!((0..4).map(item_offset).collect::<Vec<_>>(), vec![6, 38, 70, 112]);
    assert_eq!(menu_total_h(), 150);
    assert_eq!(submenu_h(), 172);
}

#[test]
fn context_menu_flow() {
    let mut m = ContextMenu::new();
    assert_eq!(m.handle_click(None, Some(1)), None);
    m.open(4);
    // hover Resize opens its submenu and highlights the submenu row
    m.handle_motion(&MenuMotion { over_sub_panel: false, sub_hit: None, top_hit: Some(0), sub_hit_for_top: Some(2) });
    assert_eq!((m.hovered, m.show_sub, m.sub_hovered), (0, 0, 2));
    // moving inside the submenu keeps it open
    m.handle_motion(&MenuMotion { over_sub_panel: true, sub_hit: Some(4), top_hit: None, sub_hit_for_top: None });
    assert_eq!((m.hovered, m.show_sub, m.sub_hovered), (0, 0, 4));
    assert_eq!(m.handle_click(Some(4), None), Some((MenuAction::Resize(4), 4)));
    assert!(!m.visible);
    m.open(2);
    m.handle_motion(&MenuMotion { over_sub_panel: false, sub_hit: None, top_hit: Some(2), sub_hit_for_top: None });
    assert_eq!(m.handle_click(Some(1), None), Some((MenuAction::SizeAll(1), 2)));
    m.open(7);
    assert_eq!(m.handle_click(None, Some(0)), None);
    assert!(m.visible);
    assert_eq!(m.handle_click(None, Some(3)), Some((MenuAction::Delete, 7)));
    m.open(7);
    assert_eq!(m.handle_click(None, Some(1)), Some((MenuAction::CopyPaste, 7)));
    m.open(7);
    assert_eq!(m.handle_click(None, None), None);
    assert!(!m.visible);
}

#[test]
fn picker_flow() {
    assert_eq!(picker_rows(), 2);
    assert_eq!(picker_panel_size(), (626, 250));
    assert_eq!(picker_cell_offset(5), (168, 142));
    let mut p = DragModeMenu::new();
    p.open();
    p.handle_motion(true, Some(3));
    assert_eq!(p.hovered, 3);
    p.handle_motion(false, Some(1));
    assert_eq!(p.hovered, 3);
    assert_eq!(p.handle_click(true, None, true), None);
    assert!(p.visible);
    assert!(p.handle_click(true, Some(7), true) == Some(DragMode::Bomb));
    assert!(!p.visible);
    p.open();
    assert_eq!(p.handle_click(true, None, false), None);
    assert!(!p.visible);
}

#[test]
fn spawner_and_gravity_buttons() {
    let mut s = Spawner::new();
    s.toggle();
    assert!(s.visible);
    assert!(s.handle_click(false, true, Some(1), None, false) == SpawnerClick::Ignored);
    assert!(s.handle_click(true, true, Some(4), Some(2), false) == SpawnerClick::Shape);
    assert!(s.shape == SpawnShape::Star);
    assert!(s.handle_click(true, true, None, Some(6), true) == SpawnerClick::Color);
    assert_eq!(s.color_idx, 6);
    assert!(s.handle_click(true, true, None, None, true) == SpawnerClick::Track);
    assert!(s.handle_click(true, true, None, None, false) == SpawnerClick::Panel);
    assert_eq!(spawn_color(6), (240, 130, 50));
    let mut g = GravityButtons::new();
    assert_eq!(g.active, 3);
    assert_eq!(g.handle_click(Some(6)), Some(6));
    assert_eq!(g.active, 6);
    assert_eq!(g.handle_click(None), None);
    assert_eq!(g.active, 6);
}

#[test]
fn click_routing_precedence() {
    let none = ClickHits {
        gravity_button: None,
        window_slider: false,
        volume_slider: false,
        picker_active: false,
        spawner_active: false,
        menu_visible: false,
        trail_panel: false,
        field_panel: false,
        below_hud: false,
    };
    assert!(route_left_click(&none) == ClickTarget::Nothing);
    let all = ClickHits {
        gravity_button: Some(2),
        window_slider: true,
        volume_slider: true,
        picker_active: true,
        spawner_active: true,
        menu_visible: true,
        trail_panel: true,
        field_panel: true,
        below_hud: true,
    };
    assert!(route_left_click(&all) == ClickTarget::GravityPreset(2));
    let menu = ClickHits { menu_visible: true, below_hud: true, trail_panel: true, ..none };
    assert!(route_left_click(&menu) == ClickTarget::ContextMenu);
    let scene = ClickHits { below_hud: true, ..none };
    assert!(route_left_click(&scene) == ClickTarget::Scene);
    assert!(escape_action(true) == EscapeAction::CloseMenu);
    assert!(escape_action(false) == EscapeAction::Quit);
}

#[test]
fn audio_routing_and_names() {
    assert!(audio_kind("xm") == AudioKind::Tracker);
    assert!(audio_kind("669") == AudioKind::Tracker);
    assert!(audio_kind("pls") == AudioKind::Playlist);
    assert!(audio_kind("mp3") == AudioKind::Regular);
    assert!(audio_kind("") == AudioKind::Regular);
    assert!(is_stream_url("HTTPS://radio"));
    assert!(!is_stream_url("rtsp://x"));
    assert_eq!(display_name("/a/b/song.flac"), "song.flac");
    assert_eq!(display_name("/"), "/");
    assert_eq!(format_label("/a/b/song.flac"), "FLAC");
    assert_eq!(format_label("noext"), "");
    assert_eq!(lower_extension("Tune.XM"), "xm");
    assert_eq!(decimal_string(0), "0");
    assert_eq!(decimal_string(1234567), "1234567");
    assert_eq!(playlist_title("/m/list.pls", 12), "list.pls (12 tracks)");
}

#[test]
fn module_player_state() {
    let mut info = ModInfo::empty();
    let ev = mod_toggle_event(info.playing);
    mod_apply(&mut info, ev);
    assert!(info.playing && !info.loaded);
    mod_apply(
        &mut info,
        ModEvent::Loaded { title: "t".to_string(), fmt: "xm".to_string(), name: "a.xm".to_string(), orders: 9 },
    );
    assert!(info.loaded && info.playing);
    assert_eq!((info.fmt.as_str(), info.order, info.orders), ("XM", 0, 9));
    let ev = mod_toggle_event(info.playing);
    mod_apply(&mut info, ev);
    assert!(!info.playing && info.loaded);
    mod_apply(&mut info, ModEvent::Stop);
    assert!(!info.loaded && info.name.is_empty() && info.orders == 0);
    assert_eq!(frames_to_decode(96000), 4096);
    assert_eq!(frames_to_decode(1001), 500);
}

#[test]
fn regular_player_state() {
    let mut p = RegularPlayerState::new();
    assert_eq!(p.toggle_pause(false), None);
    p.file_loaded("/x/Song.ogg");
    assert_eq!((p.info.name.as_str(), p.info.fmt.as_str()), ("Song.ogg", "OGG"));
    assert_eq!(p.toggle_pause(true), Some(false));
    assert!(!p.playing_flag());
    assert!(!p.playlist_loaded(vec!["a".to_string()], "L".to_string(), 0));
    assert_eq!(p.info.name, "Song.ogg");
    assert!(p.playlist_loaded(vec!["a".to_string(), "b".to_string()], "L (2 tracks)".to_string(), 1));
    assert_eq!((p.info.fmt.as_str(), p.playlist.len()), ("PLS", 2));
    assert!(p.needs_replay(true, true));
    assert!(!p.needs_replay(true, false));
    p.file_loaded("/x/Other.wav");
    assert!(p.playlist.len() == 2 && p.info.loaded);
    assert_eq!(p.info.fmt, "WAV");
    assert!(p.needs_replay(true, true));
    p.stop();
    assert!(!p.info.loaded && p.playlist.is_empty());
    assert!(!p.needs_replay(true, true));
}

trait PlayingFlag {
    fn playing_flag(&self) -> bool;
}

impl PlayingFlag for RegularPlayerState {
    fn playing_flag(&self) -> bool {
        self.info.playing
    }
}

#[test]
fn kill_removal_and_drag() {
    let mut objs = vec!['a', 'b', 'c', 'd', 'e'];
    let (removed, drag) = remove_killed(&mut objs, &vec![1, 3], Some(3));
    assert_eq!(objs, vec!['a', 'c', 'e']);
    assert_eq!(removed, vec!['d', 'b']);
    assert_eq!(drag, None);
    let mut objs2 = vec![1, 2, 3];
    let (_, drag2) = remove_killed(&mut objs2, &vec![0], Some(2));
    // the drag keeps its position number
    assert_eq!(drag2, Some(2));
    assert_eq!(objs2, vec![2, 3]);
}

#[test]
fn trail_caps() {
    let mut t: Trail<u32> = Trail::new();
    for k in 0..5 {
        t.push_capped(k, 3);
    }
    assert_eq!(t.len(), 3);
    assert_eq!((*t.get(0), t.oldest().copied(), t.newest().copied()), (2, Some(2), Some(4)));
    t.trim_to(1);
    assert_eq!((t.len(), *t.get(0)), (1, 4));
    t.drop_oldest();
    assert_eq!(t.len(), 0);
    t.drop_oldest();
    assert_eq!(t.oldest(), None);
    t.push_capped(9, 0);
    assert_eq!(t.len(), 0);
}

#[test]
fn button_fetch_counter() {
    let mut f = ButtonFetch::new();
    assert!(f.start(2));
    assert!(!f.start(5));
    f.received();
    f.end_of_frame();
    assert!(f.listening && f.pending == 1);
    f.received();
    f.received();
    f.end_of_frame();
    assert!(!f.listening && f.pending == 0);
    assert!(f.start(3));
    f.disconnected();
    assert!(!f.listening && f.pending == 0);
}

#[test]
fn dissolve_order_and_cells() {
    let o = dismissal_order(300);
    let mut s = o.clone();
    s.sort();
    assert_eq!(s, (0..300).collect::<Vec<_>>());
    assert!(dismissal_order(0).is_empty());
    let p = palette_picks(50, 8);
    assert!(p.len() == 50 && p.iter().all(|&c| c < 8));
    assert_eq!(block_cell(17, 5), (2, 3));
}

#[test]
fn music_badge_words() {
    let mut info = ModInfo::empty();
    assert_eq!(info.shown_format(), "MOD");
    mod_apply(
        &mut info,
        ModEvent::Loaded { title: String::new(), fmt: "it".to_string(), name: "song.it".to_string(), orders: 3 },
    );
    assert_eq!(info.shown_format(), "IT");
    assert_eq!(info.shown_title(), "song.it");
    mod_apply(
        &mut info,
        ModEvent::Loaded { title: "Tune".to_string(), fmt: String::new(), name: "b.mod".to_string(), orders: 1 },
    );
    assert_eq!(info.shown_title(), "Tune");
    assert_eq!(info.shown_format(), "MOD");
    assert_eq!(state_word(true), "PLAYING");
    assert_eq!(state_word(false), "PAUSED");
}

#[test]
fn background_key_cycles_and_asks_in_custom() {
    assert!(background_key(BgMode::Dark) == (BgMode::Space, false));
    assert!(background_key(BgMode::Ocean) == (BgMode::Custom, true));
    assert!(background_key(BgMode::Custom) == (BgMode::Custom, true));
}

#[test]
fn right_click_and_picker_key() {
    let mut m = ContextMenu::new();
    m.right_click(None);
    assert!(!m.visible);
    m.right_click(Some(4));
    assert!(m.visible && m.target_idx == 4 && m.hovered == -1 && m.show_sub == -1);
    m.hovered = 2;
    m.right_click(None);
    assert!(!m.visible && m.target_idx == 4 && m.hovered == 2);
    m.right_click(Some(1));
    assert!(m.visible && m.target_idx == 1 && m.hovered == -1);

    let mut p = DragModeMenu::new();
    p.toggle();
    assert!(p.visible && p.hovered == -1);
    p.hovered = 5;
    p.toggle();
    assert!(!p.visible && p.hovered == 5);
}

#[test]
fn dissolve_order_from_draws() {
    // position 2 swaps with 1, then position 1 with 0
    assert_eq!(order_from_draws(&vec![0, 0, 1]), vec![2, 0, 1]);
    // draws equal to their position leave the order as it is
    assert_eq!(order_from_draws(&vec![0, 1, 2, 3]), vec![0, 1, 2, 3]);
    // a draw beyond its position does not swap
    assert_eq!(order_from_draws(&vec![0, 9]), vec![0, 1]);
    assert_eq!(order_from_draws(&vec![]), Vec::<usize>::new());
}

#[test]
fn module_toggles_keep_the_rest() {
    let mut info = ModInfo::empty();
    mod_apply(
        &mut info,
        ModEvent::Loaded { title: "T".to_string(), fmt: "s3m".to_string(), name: "t.s3m".to_string(), orders: 4 },
    );
    for e in [ModEvent::Pause, ModEvent::Resume, ModEvent::Pause] {
        mod_apply(&mut info, e);
    }
    assert!(!info.playing && info.loaded);
    assert_eq!((info.title.as_str(), info.fmt.as_str(), info.name.as_str(), info.orders), ("T", "S3M", "t.s3m", 4));
    mod_apply(&mut info, ModEvent::Resume);
    assert!(info.playing);
}
