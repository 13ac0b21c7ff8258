//! The session: keys, windows and workspaces, placement, screens and requests.

use tessera::config::values::{ConfigValues, LoadError};
use tessera::ipc::{
    Placement as AskedPlacement, Request, Response, RunMode, Side, WindowId, WindowInfo,
};
use tessera::layout::geometry::{Direction, Rect};
use tessera::layout::tree::{LayoutOptions, Placement};
use tessera::scripts::discover::Discovered;
use tessera::scripts::list::Scripts;
use tessera::session::actions::{run_action, script_place, Effect};
use tessera::session::args::{logs_to_file, parse_args, Backend, Invocation, USAGE};
use tessera::session::desk::{Change, Desk};
use tessera::session::input::{
    configurable, function_key, keysym_named, name_to_look_up, on_keyboard, Action, Bindings,
    KeyName, ModKey, ModifiersState, Mods, ScriptBinding, RESIZE_STEP,
};
use tessera::session::launch::{
    launcher_program, script_environment, shell_command, spawn_environment, spawn_failure,
    terminal_command, Variable,
};
use tessera::session::layers::{
    click_to_focus, focus_layer, focus_under_pointer, keyboard_target, refresh_layer_focus,
    screen_bounds, Bounds, Click, KeyboardInteractivity, KeyboardTarget, Layer, LayerSurface,
};
use tessera::session::pending::{
    is_descendant, match_pending, parent_of, PendingKind, PendingMeta, PLACEMENT_TIMEOUT,
};
use tessera::session::placing::{
    beside_share, is_launcher, launcher_placement, launcher_side, launcher_window,
    resolve_placement, terminal_side, toggle_launcher, window_of_process, Toggle, Waiting,
    WindowApp, WindowOwner,
};
use tessera::session::requests::{
    done, handle_ipc_request, not_understood, started, window_list, IpcServer, Task,
    WindowDetails,
};
use tessera::session::screens::{
    choose_mode, mode_to_set, next_screen_x, output_area, place_screen, retry_delay,
    screens_gone, Drawn, FrameState, ModeChoice, ModeInfo, Plugged, ScreenPort,
};
use tessera::session::settings::{wants_snap, Behaviour, Settings};
use tessera::session::system::{
    environment_value, export_wayland_display, log_path, looks_like_a_tty,
    restore_wayland_display, rotates, LOG_ROTATE_BYTES,
};

const AREA: Rect = Rect { x: 0, y: 0, w: 1000, h: 800 };

const KEY_E: u32 = 0x65;
const KEY_H: u32 = 0x68;
const KEY_J: u32 = 0x6a;
const KEY_K: u32 = 0x6b;
const KEY_L: u32 = 0x6c;
const KEY_N: u32 = 0x6e;
const KEY_Q: u32 = 0x71;
const KEY_T: u32 = 0x74;
const KEY_Z: u32 = 0x7a;
const KEY_0: u32 = 0x30;
const KEY_1: u32 = 0x31;
const KEY_2: u32 = 0x32;
const KEY_9: u32 = 0x39;
const KEY_SPACE: u32 = 0x20;
const KEY_BACKSLASH: u32 = 0x5c;
const KEY_RETURN: u32 = 0xff0d;
const KEY_ESCAPE: u32 = 0xff1b;
const KEY_F1: u32 = 0xffbe;

/// What the keyboard library answers for the names that the tests ask for.
fn names() -> Vec<KeyName> {
    let mut names: Vec<KeyName> = ('a'..='z')
        .map(|letter| KeyName {
            name: letter.to_string(),
            exact: letter as u32,
            any_case: letter as u32,
        })
        .collect();
    for (name, exact, any_case) in [
        ("space", KEY_SPACE, KEY_SPACE),
        ("backslash", KEY_BACKSLASH, KEY_BACKSLASH),
        ("Return", KEY_RETURN, KEY_RETURN),
        ("return", 0, KEY_RETURN),
        ("Escape", KEY_ESCAPE, KEY_ESCAPE),
        ("NotAKey", 0, 0),
        ("Enterr", 0, 0),
        ("Nope", 0, 0),
    ] {
        names.push(KeyName { name: name.to_string(), exact, any_case });
    }
    names
}

fn mods(alt: bool, logo: bool, shift: bool, ctrl: bool) -> ModifiersState {
    ModifiersState { alt, logo, shift, ctrl }
}

fn bindings() -> Bindings {
    Bindings::from_config(&ConfigValues::default(), &names()).unwrap()
}

fn action(mod_key: ModKey, state: ModifiersState, sym: u32) -> Option<Action> {
    bindings().get(Mods::from_state(mod_key, &state), Some(sym))
}

#[test]
fn mod_shift_e_quits_with_the_backend_mod_key() {
    let alt = mods(true, false, true, false);
    let super_ = mods(false, true, true, false);
    assert_eq!(action(ModKey::Alt, alt, KEY_E), Some(Action::Quit));
    assert_eq!(action(ModKey::Super, super_, KEY_E), Some(Action::Quit));
}

#[test]
fn near_misses_are_forwarded_to_clients() {
    // Wrong modifier for the backend, no modifier at all, or an unbound key.
    assert_eq!(action(ModKey::Alt, mods(false, true, true, false), KEY_E), None);
    assert_eq!(action(ModKey::Alt, mods(false, false, false, false), KEY_H), None);
    assert_eq!(action(ModKey::Alt, mods(true, false, false, false), KEY_Z), None);
    assert_eq!(bindings().get(Mods::new(true, false, false), None), None);
}

#[test]
fn direction_keys_focus_swap_and_resize() {
    let plain = mods(true, false, false, false);
    let shift = mods(true, false, true, false);
    let ctrl = mods(true, false, false, true);
    assert_eq!(action(ModKey::Alt, plain, KEY_H), Some(Action::Focus(Direction::Left)));
    assert_eq!(action(ModKey::Alt, shift, KEY_J), Some(Action::Swap(Direction::Down)));
    assert_eq!(action(ModKey::Alt, ctrl, KEY_L), Some(Action::Resize(Direction::Right)));
    assert_eq!(action(ModKey::Alt, plain, KEY_K), Some(Action::Focus(Direction::Up)));
}

#[test]
fn number_keys_switch_and_move_between_workspaces() {
    let plain = mods(true, false, false, false);
    let shift = mods(true, false, true, false);
    assert_eq!(action(ModKey::Alt, plain, KEY_1), Some(Action::Workspace(0)));
    assert_eq!(action(ModKey::Alt, plain, KEY_9), Some(Action::Workspace(8)));
    assert_eq!(action(ModKey::Alt, shift, KEY_2), Some(Action::MoveToWorkspace(1)));
    // There is no workspace 0 key.
    assert_eq!(action(ModKey::Alt, plain, KEY_0), None);
}

#[test]
fn configured_bindings_replace_the_defaults() {
    let values =
        ConfigValues::parse("[bindings]\nterminal = \"Mod+t\"\nquit = \"Mod+Ctrl+Escape\"\n")
            .unwrap();
    let bindings = Bindings::from_config(&values, &names()).unwrap();
    let get = |mods: Mods, sym: u32| bindings.get(mods, Some(sym));

    assert_eq!(get(Mods::new(true, false, false), KEY_T), Some(Action::SpawnTerminal));
    assert_eq!(get(Mods::new(true, false, true), KEY_ESCAPE), Some(Action::Quit));
    assert_eq!(
        get(Mods::new(true, false, false), KEY_RETURN),
        None,
        "the old terminal binding is gone"
    );
    // Movement keys are not configurable and stay put.
    assert_eq!(
        get(Mods::new(true, false, false), KEY_H),
        Some(Action::Focus(Direction::Left))
    );
}

#[test]
fn an_unknown_key_name_is_refused_with_suggestions() {
    let values = ConfigValues::parse("[bindings]\nclose = \"Mod+Enterr\"\n").unwrap();
    let err = Bindings::from_config(&values, &names()).err().unwrap();
    assert!(err.contains("bindings.close"), "{err}");
    assert!(err.contains("Enterr"), "{err}");
    assert!(err.contains("Return"), "suggests real names: {err}");
    let usable = Bindings::usable(&values, &names());
    assert_eq!(
        usable.get(Mods::new(true, false, false), Some(KEY_Q)),
        Some(Action::CloseWindow),
        "a bad configuration gives way to the defaults"
    );
    assert_eq!(
        usable.get(Mods::new(true, false, false), Some(KEY_1)),
        Some(Action::Workspace(0))
    );
}

#[test]
fn single_letter_keys_ignore_case() {
    assert_eq!(keysym_named(&names(), "E"), Some(KEY_E));
    assert_eq!(keysym_named(&names(), "e"), Some(KEY_E));
    assert_eq!(keysym_named(&names(), "Return"), Some(KEY_RETURN));
    assert_eq!(keysym_named(&names(), "return"), Some(KEY_RETURN));
    assert_eq!(keysym_named(&names(), "NotAKey"), None);
    assert_eq!(name_to_look_up("E"), "e");
    assert_eq!(name_to_look_up("Return"), "Return");
}

fn script(index: usize, name: &str, text: &str) -> ScriptBinding {
    ScriptBinding { index, name: name.to_string(), text: text.to_string() }
}

#[test]
fn script_bindings_join_the_table() {
    let mut bindings = bindings();
    let problems = bindings.add_scripts(&vec![script(0, "notes", "Mod+Shift+N")], &names());
    assert!(problems.is_empty(), "{problems:?}");
    assert_eq!(
        bindings.get(Mods::new(true, true, false), Some(KEY_N)),
        Some(Action::RunScript(0))
    );
}

#[test]
fn a_script_never_takes_a_key_from_tessera() {
    let mut bindings = bindings();
    let problems = bindings.add_scripts(&vec![script(3, "sneaky", "Mod+Shift+E")], &names());
    assert_eq!(problems.len(), 1);
    assert_eq!(problems[0].0, 3);
    assert!(problems[0].1.contains("quit Tessera"), "{}", problems[0].1);
    assert_eq!(
        bindings.get(Mods::new(true, true, false), Some(KEY_E)),
        Some(Action::Quit),
        "quit still works"
    );
}

#[test]
fn two_scripts_on_one_key_are_both_left_out() {
    let mut bindings = bindings();
    let problems = bindings.add_scripts(
        &vec![
            script(0, "first", "Mod+Shift+N"),
            script(1, "second", "Mod+shift+n"),
            script(2, "third", "Mod+Ctrl+N"),
        ],
        &names(),
    );
    assert_eq!(problems.len(), 2, "{problems:?}");
    assert!(problems[0].1.contains("second"), "{}", problems[0].1);
    assert!(problems[1].1.contains("first"), "{}", problems[1].1);
    assert_eq!(bindings.get(Mods::new(true, true, false), Some(KEY_N)), None);
    assert_eq!(
        bindings.get(Mods::new(true, false, true), Some(KEY_N)),
        Some(Action::RunScript(2)),
        "an unrelated script keeps its key"
    );
}

#[test]
fn an_unknown_script_key_is_explained() {
    let mut bindings = bindings();
    let problems = bindings.add_scripts(&vec![script(0, "x", "Mod+Nope")], &names());
    assert!(problems[0].1.contains("Nope"), "{}", problems[0].1);
}

#[test]
fn ctrl_alt_f_keys_switch_virtual_terminals() {
    assert_eq!(function_key(KEY_F1), Some(1));
    assert_eq!(function_key(KEY_F1 + 6), Some(7));
    assert_eq!(function_key(KEY_F1 + 11), Some(12));
    assert_eq!(function_key(KEY_E), None);
    assert_eq!(function_key(KEY_ESCAPE), None);
}

#[test]
fn window_and_session_bindings() {
    let plain = mods(true, false, false, false);
    assert_eq!(action(ModKey::Alt, plain, KEY_SPACE), Some(Action::ToggleLauncher));
    // Plasma keeps Mod+Space for itself, so backslash opens it too.
    assert_eq!(action(ModKey::Alt, plain, KEY_BACKSLASH), Some(Action::ToggleLauncher));
    assert_eq!(action(ModKey::Alt, plain, KEY_Q), Some(Action::CloseWindow));
    assert_eq!(action(ModKey::Alt, plain, KEY_RETURN), Some(Action::SpawnTerminal));
}

#[test]
fn keys_act_when_pressed_only() {
    let bindings = bindings();
    let plain = mods(true, false, false, false);
    assert_eq!(
        on_keyboard(&bindings, ModKey::Alt, true, &plain, Some(KEY_Q)),
        Some(Action::CloseWindow)
    );
    assert_eq!(on_keyboard(&bindings, ModKey::Alt, false, &plain, Some(KEY_Q)), None);
    let vt = mods(true, false, false, true);
    assert_eq!(
        on_keyboard(&bindings, ModKey::Super, true, &vt, Some(KEY_F1 + 2)),
        Some(Action::SwitchVt(3))
    );
    assert!(ModKey::for_backend(true).is_held(&plain));
    assert!(!ModKey::for_backend(false).is_held(&plain));
}

#[test]
fn actions_describe_themselves() {
    assert_eq!(Action::Quit.describe(), "quit Tessera");
    assert!(Action::Workspace(2).describe().contains('3'));
    assert_eq!(configurable(0).0.split('.').next(), Some("bindings"));
}

fn meta(pid: u32, token: Option<&str>, deadline: u64) -> PendingMeta {
    PendingMeta { pid, token: token.map(str::to_string), deadline }
}

fn never(_: u32, _: u32) -> bool {
    false
}

#[test]
fn an_activation_token_wins_over_everything() {
    let now = 10_000;
    let soon = now + 1_000;
    let pending = vec![meta(10, Some("tok-a"), soon), meta(20, Some("tok-b"), soon)];
    assert_eq!(match_pending(&pending, Some(10), Some("tok-b"), now, never), Some(1));
}

#[test]
fn the_process_id_is_the_next_best_thing() {
    let now = 10_000;
    let soon = now + 1_000;
    let pending = vec![meta(10, Some("tok-a"), soon), meta(20, None, soon)];
    assert_eq!(match_pending(&pending, Some(20), None, now, never), Some(1));
    // An unknown token falls through to the pid.
    assert_eq!(match_pending(&pending, Some(20), Some("other"), now, never), Some(1));
}

#[test]
fn a_descendant_process_counts_as_the_one_we_started() {
    let now = 10_000;
    let soon = now + 1_000;
    let pending = vec![meta(10, None, soon)];
    let descends = |child: u32, ancestor: u32| child == 99 && ancestor == 10;
    assert_eq!(match_pending(&pending, Some(99), None, now, descends), Some(0));
}

#[test]
fn an_unrecognised_window_takes_the_oldest_waiting_spawn() {
    // The single-instance terminal case: the window comes from a daemon we
    // never started, with no token.
    let now = 10_000;
    let pending = vec![meta(10, Some("tok"), now + 2_000), meta(20, None, now + 1_000)];
    assert_eq!(match_pending(&pending, Some(999), None, now, never), Some(1));
}

#[test]
fn expired_spawns_never_match() {
    let now = 10_000;
    let past = now - 1_000;
    let pending = vec![meta(10, Some("tok"), past)];
    assert_eq!(match_pending(&pending, Some(10), Some("tok"), now, never), None);
    assert_eq!(match_pending(&vec![], Some(1), None, now, never), None);
}

/// The processes of a machine: 7 was started by 5, which was started by 3.
fn parents(pid: u32) -> Option<u32> {
    match pid {
        7 => Some(5),
        5 => Some(3),
        3 => Some(1),
        _ => None,
    }
}

#[test]
fn a_process_is_its_own_descendant_but_not_of_a_stranger() {
    let me = 7;
    assert!(is_descendant(me, me, parents));
    assert!(is_descendant(me, 3, parents));
    assert!(!is_descendant(me, u32::MAX - 1, parents));
}

#[test]
fn the_first_process_has_descendants() {
    assert!(is_descendant(7, 1, parents));
    assert!(is_descendant(3, 1, parents));
    assert!(is_descendant(1, 1, parents));
    assert!(!is_descendant(1, 3, parents));
}

#[test]
fn a_long_chain_of_processes_is_given_up_on() {
    assert!(is_descendant(100, 91, |pid: u32| Some(pid - 1)));
    assert!(!is_descendant(100, 50, |pid: u32| Some(pid - 1)));
}

#[test]
fn the_parent_of_this_process_is_readable() {
    assert_eq!(parent_of("42 (cat) S 7 42 42 0 -1"), Some(7));
    assert_eq!(parent_of("42 (a (b) c) S 9 42"), Some(9), "command names hold brackets");
    assert_eq!(parent_of("42 cat"), None);
    assert_eq!(parent_of("42 (cat) S x"), None);
    assert!(is_descendant(42, 7, |pid: u32| {
        if pid == 42 {
            parent_of("42 (cat) S 7 42 42 0 -1")
        } else {
            None
        }
    }));
}

#[test]
fn an_unknown_launcher_name_is_left_for_the_path_lookup() {
    assert_eq!(
        launcher_program("definitely-not-installed-xyz", None),
        "definitely-not-installed-xyz"
    );
}

#[test]
fn a_binary_next_to_the_compositor_is_preferred() {
    assert_eq!(
        launcher_program("tessera-launcher", Some("/opt/bin/tessera-launcher")),
        "/opt/bin/tessera-launcher"
    );
}

fn modes() -> Vec<ModeInfo> {
    // A 4K monitor as it really presents itself: preferred is the big one.
    [
        (3840, 2160, 60, true),
        (3840, 2160, 30, false),
        (1920, 1080, 120, false),
        (1920, 1080, 60, false),
        (1680, 1050, 60, false),
    ]
    .iter()
    .map(|(width, height, refresh, preferred)| ModeInfo {
        width: *width,
        height: *height,
        refresh: *refresh,
        preferred: *preferred,
    })
    .collect()
}

/// Reads the setting the way the program does: the rate is a decimal fraction.
fn choice(text: &str) -> Result<ModeChoice, String> {
    let rate = ModeChoice::rate_text(text)
        .and_then(|rate| rate.parse::<f32>().ok())
        .map(|rate| (rate * 1000.0).round() as i64);
    ModeChoice::parse(text, rate)
}

#[test]
fn a_resolution_is_parsed_from_the_setting() {
    assert_eq!(choice("preferred").unwrap(), ModeChoice::Preferred);
    assert_eq!(choice("").unwrap(), ModeChoice::Preferred);
    assert_eq!(
        choice("1920x1080").unwrap(),
        ModeChoice::Size { width: 1920, height: 1080, refresh: None }
    );
    assert_eq!(
        choice(" 1920X1080@59.94 ").unwrap(),
        ModeChoice::Size { width: 1920, height: 1080, refresh: Some(59_940) }
    );
    assert!(choice("huge").is_err());
    assert!(choice("1920x1080@fast").is_err());
    assert!(choice("1920x99999").is_err());
}

#[test]
fn preferred_takes_what_the_screen_asks_for() {
    assert_eq!(choose_mode(&modes(), &ModeChoice::Preferred), Some(0));
    assert_eq!(choose_mode(&vec![], &ModeChoice::Preferred), None);
}

#[test]
fn an_exact_size_wins_at_the_highest_refresh() {
    let choice = choice("1920x1080").unwrap();
    assert_eq!(choose_mode(&modes(), &choice), Some(2), "120 Hz, not 60");
}

#[test]
fn a_named_refresh_rate_picks_the_nearest() {
    assert_eq!(choose_mode(&modes(), &choice("1920x1080@60").unwrap()), Some(3));
    assert_eq!(choose_mode(&modes(), &choice("3840x2160@30").unwrap()), Some(1));
}

#[test]
fn a_size_the_screen_lacks_falls_back_to_the_largest_that_fits() {
    assert_eq!(
        choose_mode(&modes(), &choice("1920x1200").unwrap()),
        Some(2),
        "1920x1080 fits inside it"
    );

    // Nothing fits: the screen's own preference is better than nothing.
    assert_eq!(choose_mode(&modes(), &choice("640x480").unwrap()), Some(0));
}

#[test]
fn a_mode_is_set_only_when_it_differs() {
    let choice = choice("1920x1080").unwrap();
    assert_eq!(mode_to_set(&modes(), &choice, &vec![0]), Some(2));
    assert_eq!(mode_to_set(&modes(), &choice, &vec![2]), None);
    assert_eq!(mode_to_set(&modes(), &choice, &vec![]), Some(2));
}

#[test]
fn a_mode_that_is_listed_twice_is_not_set_again() {
    let mode = ModeInfo { width: 1920, height: 1080, refresh: 60, preferred: false };
    let twice = vec![mode, mode];
    assert_eq!(mode_to_set(&twice, &choice("1920x1080").unwrap(), &vec![0, 1]), None);
}

#[test]
fn the_largest_mode_that_fits_wins_over_a_higher_refresh() {
    let large = ModeInfo { width: 1680, height: 1050, refresh: 60, preferred: false };
    let fast = ModeInfo { width: 1280, height: 720, refresh: 120, preferred: false };
    let wanted = choice("1920x1080").unwrap();
    assert_eq!(choose_mode(&vec![large, fast], &wanted), Some(0));
    assert_eq!(choose_mode(&vec![fast, large], &wanted), Some(1));
    let slow = ModeInfo { refresh: 50, ..large };
    assert_eq!(choose_mode(&vec![large, slow], &wanted), Some(0), "the rate decides then");
}

#[test]
fn a_variable_is_read_out_of_systemctl_output() {
    let text = "LANG=en_GB.UTF-8\nWAYLAND_DISPLAY=wayland-0\nPATH=/usr/bin\n";
    assert_eq!(
        environment_value(text, "WAYLAND_DISPLAY"),
        Some("wayland-0".to_string())
    );
    assert_eq!(environment_value(text, "DISPLAY"), None);
    assert_eq!(
        environment_value("WAYLAND_DISPLAY=\"wayland 1\"\n", "WAYLAND_DISPLAY"),
        Some("wayland 1".to_string()),
        "quoted values are unquoted"
    );
}

#[test]
fn the_display_is_exported_and_put_back() {
    assert_eq!(
        export_wayland_display("wayland-1"),
        ["--user", "set-environment", "WAYLAND_DISPLAY=wayland-1"]
    );
    assert_eq!(
        restore_wayland_display(Some("wayland-0")),
        ["--user", "set-environment", "WAYLAND_DISPLAY=wayland-0"]
    );
    assert_eq!(
        restore_wayland_display(None),
        ["--user", "unset-environment", "WAYLAND_DISPLAY"]
    );
}

#[test]
fn large_logs_are_rotated() {
    assert!(!rotates(None));
    assert!(!rotates(Some(LOG_ROTATE_BYTES)));
    assert!(rotates(Some(LOG_ROTATE_BYTES + 1)));
}

#[test]
fn the_log_lives_under_the_state_directory() {
    for (state, home) in [
        (Some("/state"), None),
        (Some("relative"), Some("/home/me")),
        (None, None),
    ] {
        let path = log_path(state, home);
        assert!(path.ends_with("tessera/tessera.log"), "{path:?}");
        assert!(path.starts_with('/'), "{path:?}");
    }
    assert_eq!(log_path(None, Some("/home/me")), "/home/me/.local/state/tessera/tessera.log");
}

#[test]
fn a_desktop_session_means_we_are_not_on_a_tty() {
    for (wayland, x11) in [(true, true), (true, false), (false, true), (false, false)] {
        let inside_desktop = wayland || x11;
        assert_eq!(looks_like_a_tty(wayland, x11), !inside_desktop);
    }
}

fn args(words: &[&str]) -> Vec<String> {
    words.iter().map(|word| word.to_string()).collect()
}

#[test]
fn the_command_line_chooses_a_backend() {
    let run = |backend: Backend, spawn: &[&str]| {
        Ok(Invocation::Run { backend, spawn: args(spawn) })
    };
    assert_eq!(parse_args(&args(&[]), false, false), run(Backend::Winit, &[]));
    assert_eq!(parse_args(&args(&[]), true, false), run(Backend::Udev, &[]));
    assert_eq!(
        parse_args(&args(&["--nested", "--spawn", "foot", "--spawn", "a b"]), false, false),
        run(Backend::Winit, &["foot", "a b"])
    );
    assert_eq!(
        parse_args(&args(&["--backend", "udev"]), false, true),
        run(Backend::Udev, &[])
    );
    assert_eq!(parse_args(&args(&["--nested", "-h"]), true, false), Ok(Invocation::Help));
}

#[test]
fn wrong_command_lines_are_refused_with_reasons() {
    for (words, on_tty, fragment) in [
        (&["--backend"][..], false, "--backend needs a name"),
        (&["--backend", "x"][..], false, "unknown backend `x`"),
        (&["--spawn"][..], false, "--spawn needs a command"),
        (&["--what"][..], false, "unknown argument `--what`"),
        (&["--nested"][..], true, "no desktop session"),
        (&["--backend", "tty"][..], false, "refusing to take the screen"),
    ] {
        let err = parse_args(&args(words), on_tty, false).unwrap_err();
        assert!(err.contains(fragment), "{err}");
    }
    assert!(parse_args(&args(&["x"]), false, false).unwrap_err().ends_with(USAGE));
    assert!(logs_to_file(Backend::Udev, false));
    assert!(!logs_to_file(Backend::Winit, false));
}

fn desk_with(windows: usize) -> (Desk, Vec<WindowId>) {
    let mut desk = Desk::new();
    let mut ids = Vec::new();
    for _ in 0..windows {
        ids.push(desk.open_window(Placement::Auto, None, AREA).0);
    }
    (desk, ids)
}

#[test]
fn windows_tile_and_hand_the_focus_on() {
    let (mut desk, ids) = desk_with(3);
    assert_eq!(desk.shown(), ids);
    assert_eq!(desk.focus(), Some(ids[2]));
    desk.configure(LayoutOptions { gaps: 0, snap: None }, false, true);
    let tiles = desk.layout(AREA);
    assert_eq!(tiles[0], (ids[0], Rect::new(0, 0, 500, 800)));
    assert_eq!(tiles[2], (ids[2], Rect::new(500, 400, 500, 400)));

    let change = desk.focus_direction(Direction::Left, AREA);
    assert!(change.refocus);
    assert_eq!(desk.focus(), Some(ids[0]));
    desk.swap_direction(Direction::Right, AREA);
    assert_ne!(desk.shown(), ids);
    desk.resize_direction(Direction::Right, RESIZE_STEP);

    let change = desk.close_window(ids[0], AREA);
    assert!(change.relayout && change.refocus);
    assert!(!desk.holds(ids[0]));
    assert!(desk.focus().is_some(), "another window takes the focus");
}

#[test]
fn numbers_of_closed_windows_are_not_used_again() {
    let (mut desk, ids) = desk_with(2);
    desk.close_window(ids[1], AREA);
    let (next, _) = desk.open_window(Placement::Auto, None, AREA);
    assert!(!ids.contains(&next));
}

#[test]
fn a_window_that_closes_while_hidden_is_forgotten() {
    let (mut desk, ids) = desk_with(2);
    desk.switch_workspace(4);
    let change = desk.close_window(ids[0], AREA);
    assert!(change.relayout && !change.refocus);
    assert!(!desk.holds(ids[0]) && desk.holds(ids[1]));
    assert_eq!(desk.windows_on(0), vec![ids[1]]);
    let change = desk.close_window(ids[0], AREA);
    assert!(!change.relayout && !change.refocus && change.hidden.is_empty(), "it is gone");
}

#[test]
fn workspaces_keep_their_windows() {
    let (mut desk, ids) = desk_with(2);
    let change = desk.switch_workspace(4);
    assert_eq!(change.hidden, ids);
    assert_eq!(desk.active_workspace(), 4);
    assert!(desk.shown().is_empty());
    assert_eq!(desk.focus(), None);
    assert_eq!(desk.windows_on(0), ids);
    desk.switch_workspace(99);
    assert_eq!(desk.active_workspace(), 4, "there is no such workspace");

    let change = desk.focus_anywhere(ids[0]);
    assert!(change.refocus);
    assert_eq!(desk.active_workspace(), 0);
    assert_eq!(desk.focus(), Some(ids[0]));

    let change = desk.move_focused_to_workspace(2, AREA);
    assert_eq!(change.hidden, [ids[0]]);
    assert_eq!(desk.windows_on(2), [ids[0]]);
    assert_eq!(desk.shown(), [ids[1]]);
    assert!(!desk.is_shown(ids[0]));
}

#[test]
fn a_window_can_open_on_another_workspace() {
    let (mut desk, ids) = desk_with(1);
    let (new, change) = desk.open_window(Placement::Auto, Some(6), AREA);
    assert_eq!(desk.windows_on(6), [new]);
    assert_eq!(desk.shown(), ids);
    assert_eq!(change.hidden, [new]);
}

#[test]
fn a_lone_window_has_no_gaps_when_gaps_are_smart() {
    let (mut desk, ids) = desk_with(1);
    desk.configure(LayoutOptions { gaps: 10, snap: None }, true, true);
    assert_eq!(desk.layout(AREA), [(ids[0], AREA)]);
    desk.configure(LayoutOptions { gaps: 10, snap: None }, false, true);
    assert_eq!(desk.layout(AREA), [(ids[0], Rect::new(10, 10, 980, 780))]);
    assert!(desk.has_room_in(AREA));
    assert!(!desk.has_room_in(Rect::new(i32::MAX, 0, 10, 10)));
}

#[test]
fn new_windows_may_leave_the_focus_alone() {
    let (mut desk, ids) = desk_with(1);
    desk.configure(LayoutOptions { gaps: 0, snap: None }, false, false);
    let (new, _) = desk.open_window(Placement::Auto, None, AREA);
    assert_eq!(desk.focus(), Some(ids[0]));
    desk.focus_window(Some(new));
    assert_eq!(desk.focus(), Some(new));
    assert_eq!(
        desk.unmap_window(WindowId(99), AREA),
        Change { hidden: vec![WindowId(99)], relayout: true, refocus: false }
    );
}

#[test]
fn the_launcher_stands_beside_what_is_focused() {
    let values = ConfigValues::parse("[launcher]\nside = \"left\"\nbeside_share = 70\n").unwrap();
    assert_eq!(launcher_side(&values), Side::Left);
    assert_eq!(terminal_side(&values), Side::Right);
    assert_eq!(beside_share(&values), 700_000);

    let (desk, ids) = desk_with(1);
    let place = PendingKind::Beside {
        anchor: ids[0],
        side: Direction::Left,
        ratio: 300_000,
    };
    assert_eq!(launcher_placement(&desk, &values), place);
    assert_eq!(toggle_launcher(&desk, &values, &vec![]), Toggle::Open(place));
    let apps = vec![WindowApp {
        window: ids[0],
        app_id: Some("tessera.launcher".to_string()),
    }];
    assert_eq!(launcher_window(&apps), Some(ids[0]));
    assert!(is_launcher(&apps[0].app_id));
    assert!(!is_launcher(&None));
    assert_eq!(toggle_launcher(&desk, &values, &apps), Toggle::Focus(ids[0]));
    assert_eq!(
        launcher_placement(&Desk::new(), &values),
        PendingKind::Auto,
        "an empty workspace is tiled the usual way"
    );
}

#[test]
fn placements_are_resolved_for_the_caller() {
    let beside = AskedPlacement::BesideCaller { side: Side::Above, ratio: 400_000 };
    assert_eq!(
        resolve_placement(beside, Some(WindowId(4))),
        PendingKind::Beside { anchor: WindowId(4), side: Direction::Up, ratio: 400_000 }
    );
    assert_eq!(resolve_placement(beside, None), PendingKind::Auto);
    assert_eq!(
        resolve_placement(AskedPlacement::Workspace { number: 3 }, None),
        PendingKind::Workspace(2)
    );
    assert_eq!(resolve_placement(AskedPlacement::Auto, None), PendingKind::Auto);

    let owners = vec![
        WindowOwner { window: WindowId(1), pid: None },
        WindowOwner { window: WindowId(2), pid: Some(30) },
    ];
    assert_eq!(window_of_process(&owners, 30, never), Some(WindowId(2)));
    assert_eq!(
        window_of_process(&owners, 31, |child: u32, ancestor: u32| child == 31 && ancestor == 30),
        Some(WindowId(2)),
        "a program started from a terminal belongs to the terminal's window"
    );
    assert_eq!(window_of_process(&owners, 32, never), None);
}

#[test]
fn a_promised_place_is_handed_out_once() {
    let (desk, ids) = desk_with(1);
    let mut waiting = Waiting::new();
    let beside = PendingKind::Beside {
        anchor: ids[0],
        side: Direction::Down,
        ratio: 500_000,
    };
    waiting.remember(5, None, beside, 1_000);
    assert_eq!(
        waiting.take_placement_for(&desk, Some(5), None, 1_001, never),
        (
            Placement::Beside { anchor: ids[0], side: Direction::Down, ratio: 500_000 },
            None
        )
    );
    assert_eq!(
        waiting.take_placement_for(&desk, Some(5), None, 1_002, never),
        (Placement::Auto, None)
    );
    waiting.remember(6, None, PendingKind::Workspace(3), 1_000);
    assert_eq!(
        waiting.take_placement_for(&desk, Some(6), None, 1_500, never),
        (Placement::Auto, Some(3))
    );
    waiting.remember(7, None, PendingKind::Workspace(3), 1_000);
    assert_eq!(
        waiting.take_placement_for(&desk, Some(7), None, 1_000 + PLACEMENT_TIMEOUT, never),
        (Placement::Auto, None),
        "it has waited too long"
    );
}

fn surface(id: u64, layer: Layer, keyboard: KeyboardInteractivity) -> LayerSurface {
    LayerSurface { id, layer, keyboard }
}

#[test]
fn overlays_take_the_keyboard() {
    let bar = surface(1, Layer::Top, KeyboardInteractivity::Never);
    let menu = surface(2, Layer::Top, KeyboardInteractivity::OnDemand);
    let screens = vec![vec![bar, menu]];
    assert_eq!(refresh_layer_focus(&screens, None), None);
    assert_eq!(focus_layer(&screens, None, menu), Some(2));
    assert_eq!(focus_layer(&screens, Some(2), bar), Some(2));
    assert_eq!(refresh_layer_focus(&vec![vec![bar]], Some(2)), None, "it was unmapped");
    let exclusive = vec![
        vec![menu],
        vec![surface(3, Layer::Top, KeyboardInteractivity::Exclusive), surface(4, Layer::Top, KeyboardInteractivity::Exclusive)],
    ];
    assert_eq!(refresh_layer_focus(&exclusive, Some(2)), Some(4), "the latest wins");
    assert_eq!(
        refresh_layer_focus(&vec![vec![surface(5, Layer::Bottom, KeyboardInteractivity::Exclusive)]], None),
        None
    );
    assert_eq!(keyboard_target(Some(4), Some(WindowId(1))), KeyboardTarget::Layer(4));
    assert_eq!(keyboard_target(None, Some(WindowId(1))), KeyboardTarget::Window(WindowId(1)));
    assert_eq!(keyboard_target(None, None), KeyboardTarget::Nothing);
}

#[test]
fn clicks_find_what_is_on_top() {
    let bar = surface(1, Layer::Top, KeyboardInteractivity::OnDemand);
    let window = Some(WindowId(3));
    assert_eq!(click_to_focus(Some(bar), window, None, false, None), Click::Layer(bar));
    assert_eq!(click_to_focus(None, None, Some(bar), false, None), Click::Layer(bar));
    assert_eq!(
        click_to_focus(None, window, Some(bar), true, window),
        Click::Window { window, release_layer: false, refocus: false }
    );
    assert_eq!(focus_under_pointer(false, window, None, true, false), window);
    assert_eq!(focus_under_pointer(false, window, None, true, true), None);
    assert_eq!(focus_under_pointer(true, window, None, false, false), None);
    assert_eq!(focus_under_pointer(false, window, window, false, false), None);
}

#[test]
fn screens_come_and_go() {
    let screens = vec![
        ScreenPort { controller: 10, connector: 1 },
        ScreenPort { controller: 11, connector: 2 },
    ];
    assert_eq!(screens_gone(&screens, &vec![2]), [10]);
    assert_eq!(place_screen(&screens, 2, &vec![12]), Plugged::Known);
    assert_eq!(place_screen(&screens, 3, &vec![10, 12]), Plugged::Use(12));
    assert_eq!(place_screen(&screens, 3, &vec![10, 11]), Plugged::NoController);
    let rects = vec![Rect::new(0, 0, 1920, 1080), Rect::new(1920, 0, 1280, 1024)];
    assert_eq!(next_screen_x(&rects), 3200);
    assert_eq!(next_screen_x(&vec![]), 0);
    assert_eq!(output_area(&rects), rects[0]);
    assert_eq!(output_area(&vec![]), Rect::new(0, 0, 0, 0));
    assert_eq!(
        screen_bounds(&rects),
        Some(Bounds { left: 0, top: 0, right: 3200, bottom: 1080 })
    );
    assert_eq!(screen_bounds(&vec![]), None);
}

#[test]
fn frames_wait_for_one_another() {
    let mut frames = FrameState::new();
    assert!(frames.may_draw(true));
    assert!(!frames.may_draw(false));
    assert!(!frames.drawn(Drawn::Queued));
    assert!(!frames.may_draw(true));
    frames.arrived();
    assert!(frames.drawn(Drawn::Unchanged));
    assert!(frames.drawn(Drawn::Failed));
    assert!(frames.may_draw(true));
    assert_eq!(retry_delay(None), 16_666);
    assert_eq!(retry_delay(Some(60_000)), 16_666);
    assert_eq!(retry_delay(Some(0)), 1_000_000_000);
}

#[test]
fn a_program_is_started_with_its_surroundings() {
    let behaviour = Behaviour {
        gtk_theme: "Adwaita".to_string(),
        ..Behaviour::default()
    };
    let set = spawn_environment("wayland-1", true, &behaviour, Some("/run/t.sock"), None);
    let find = |name: &str| {
        set.iter().find(|variable| variable.name == name).map(|found| found.value.clone())
    };
    assert_eq!(find("WAYLAND_DISPLAY"), Some(Some("wayland-1".to_string())));
    assert_eq!(find("DISPLAY"), Some(None));
    assert_eq!(find("TESSERA_BACKEND"), Some(Some("nested".to_string())));
    assert_eq!(find("GTK_THEME"), Some(Some("Adwaita".to_string())));
    assert_eq!(find("QT_QPA_PLATFORMTHEME"), None);
    assert_eq!(find("TESSERA_SOCKET"), Some(Some("/run/t.sock".to_string())));
    assert_eq!(find("XDG_ACTIVATION_TOKEN"), None);
    assert_eq!(
        script_environment("w", "job", None)[1],
        Variable { name: "TESSERA_SCRIPT".to_string(), value: Some("job".to_string()) }
    );
    assert_eq!(shell_command("ls | wc"), ["/bin/sh", "-c", "ls | wc"]);
    assert_eq!(terminal_command(&args(&["foot", "-a"]), "/s/x"), ["foot", "-a", "-e", "/s/x"]);
    assert_eq!(spawn_failure(&args(&["a", "b"]), "no"), "could not run `a b`: no");
}

#[test]
fn settings_follow_the_configuration() {
    let mut settings = Settings::new(true);
    assert_eq!(settings.mod_key, ModKey::Alt);
    let values = ConfigValues::parse(
        "[general]\nterminal = \"kitty -1\"\nmod_key = \"super\"\n[layout]\ngaps = 3\nsnap_to_cells = true\n[launcher]\nfont_size = 20\n",
    )
    .unwrap();
    assert!(wants_snap(&values));
    let response = settings.reload_config(Ok(values), &names(), Some((9, 18)));
    assert_eq!(
        response,
        Response::ConfigApplied {
            live: args(&[
                "general.terminal",
                "general.mod_key",
                "layout.gaps",
                "layout.snap_to_cells"
            ]),
            needs_restart: args(&["launcher.font_size"]),
        }
    );
    assert_eq!(settings.mod_key, ModKey::Super);
    assert_eq!(settings.layout_opts, LayoutOptions { gaps: 3, snap: Some((9, 18)) });
    assert_eq!(settings.behaviour.terminal, ["kitty", "-1"]);

    // What cannot be applied changes nothing.
    let empty = ConfigValues::parse("[general]\nterminal = \" \"\n").unwrap();
    let response = settings.reload_config(Ok(empty), &names(), None);
    assert!(matches!(response, Response::Error { message } if message.contains("terminal")));
    assert_eq!(settings.behaviour.terminal, ["kitty", "-1"]);
    let broken = Err(LoadError::Io { path: "/c".to_string(), message: "gone".to_string() });
    let response = settings.reload_config(broken, &names(), None);
    assert_eq!(response, Response::Error { message: "/c: gone".to_string() });

    // A session starts on the defaults rather than not at all.
    let mut settings = Settings::new(false);
    let empty = ConfigValues::parse("[general]\nterminal = \" \"\n").unwrap();
    assert_eq!(settings.load_initial_config(Ok(empty), &names(), None, None), Ok(()));
    assert_eq!(settings.behaviour.terminal, ["foot"]);
}

fn details(window: WindowId) -> WindowDetails {
    WindowDetails {
        window,
        app_id: Some("foot".to_string()),
        title: None,
    }
}

#[test]
fn requests_become_tasks() {
    let (mut desk, ids) = desk_with(2);
    desk.move_focused_to_workspace(1, AREA);
    let mut scripts = Scripts::default();
    scripts.rescan_scripts(vec![Discovered {
        name: "job".to_string(),
        path: "/s/job".to_string(),
        header: Default::default(),
    }]);
    let known = vec![details(ids[0])];
    let ask = |request: Request| handle_ipc_request(request, &desk, &scripts, &known);

    assert_eq!(
        window_list(&desk, &known),
        vec![
            WindowInfo {
                id: ids[0],
                app_id: Some("foot".to_string()),
                title: None,
                workspace: 1,
                focused: true,
            },
            WindowInfo { id: ids[1], app_id: None, title: None, workspace: 2, focused: false },
        ]
    );
    assert_eq!(
        ask(Request::ListWindows),
        Task::Answer(Response::Windows { windows: window_list(&desk, &known) })
    );
    assert_eq!(ask(Request::Focus { window: ids[1] }), Task::Focus(ids[1]));
    assert!(matches!(
        ask(Request::Focus { window: WindowId(77) }),
        Task::Answer(Response::Error { .. })
    ));
    assert_eq!(ask(Request::ReloadConfig), Task::Reload);
    assert_eq!(ask(Request::Subscribe), Task::Answer(Response::Done));
    assert_eq!(ask(Request::Quit), Task::Quit);
    assert_eq!(
        ask(Request::RunScript { name: "job".to_string(), mode: Some(RunMode::Terminal) }),
        Task::Run { index: 0, mode: Some(RunMode::Terminal) }
    );
    assert_eq!(ask(Request::StopScript { name: "job".to_string() }), Task::Stop { index: 0 });
    assert_eq!(
        ask(Request::ScriptOutput { name: "nope".to_string(), tail: 1 }),
        Task::Answer(Response::Error {
            message: "no script called `nope` in the scripts folder".to_string()
        })
    );
    assert_eq!(
        ask(Request::ScriptOutput { name: "job".to_string(), tail: 1 }),
        Task::Answer(Response::ScriptOutput {
            name: "job".to_string(),
            lines: vec![],
            running: false,
        })
    );
    assert!(matches!(
        ask(Request::ListScripts),
        Task::Answer(Response::Scripts { scripts }) if scripts.len() == 1
    ));
    assert_eq!(
        ask(Request::Spawn { argv: args(&["foot"]), placement: AskedPlacement::Auto }),
        Task::Spawn { argv: args(&["foot"]), placement: AskedPlacement::Auto }
    );
    assert_eq!(
        ask(Request::Spawn { argv: vec![], placement: AskedPlacement::Auto }),
        Task::Answer(Response::Error { message: "spawn needs a command".to_string() })
    );
    assert_eq!(started(Ok(4)), Response::Spawned { pid: 4 });
    assert_eq!(
        started(Err("no".to_string())),
        Response::Error { message: "no".to_string() }
    );
    assert_eq!(done(Ok(())), Response::Done);
    assert_eq!(
        not_understood("eof"),
        Response::Error { message: "could not understand the request: eof".to_string() }
    );
    assert_eq!(IpcServer::at("/run/x.sock".to_string()).path(), "/run/x.sock");
}

#[test]
fn bindings_act_on_the_windows() {
    let (mut desk, ids) = desk_with(2);
    let values = ConfigValues::default();
    let launcher = vec![WindowApp {
        window: ids[0],
        app_id: Some("tessera.launcher".to_string()),
    }];
    let none = vec![];
    let mut run =
        |action: Action, apps: &Vec<WindowApp>| run_action(action, &mut desk, &values, apps, AREA);

    assert_eq!(run(Action::Quit, &none), Effect::Quit);
    assert_eq!(run(Action::CloseWindow, &none), Effect::Close(Some(ids[1])));
    assert_eq!(run(Action::SpawnTerminal, &none), Effect::Terminal(PendingKind::Auto));
    let beside = PendingKind::Beside {
        anchor: ids[0],
        side: Direction::Right,
        ratio: 600_000,
    };
    assert_eq!(run(Action::SpawnTerminal, &launcher), Effect::Terminal(beside));
    assert_eq!(
        run(Action::ToggleLauncher, &launcher),
        Effect::Launcher(Toggle::Focus(ids[0]))
    );
    assert_eq!(run(Action::ToggleAppsOverlay, &none), Effect::AppsOverlay);
    assert_eq!(run(Action::RunScript(4), &none), Effect::Script(4));
    assert_eq!(run(Action::SwitchVt(3), &none), Effect::SwitchVt(3));
    assert_eq!(
        run(Action::Focus(Direction::Left), &none),
        Effect::Show(Change { hidden: vec![], relayout: false, refocus: true })
    );
    assert_eq!(
        run(Action::Swap(Direction::Right), &none),
        Effect::Show(Change { hidden: vec![], relayout: true, refocus: false })
    );
    assert_eq!(
        run(Action::Resize(Direction::Up), &none),
        Effect::Show(Change { hidden: vec![], relayout: false, refocus: false })
    );
    assert_eq!(
        run(Action::MoveToWorkspace(5), &none),
        Effect::Show(Change { hidden: vec![ids[0]], relayout: true, refocus: true })
    );
    assert_eq!(
        run(Action::Workspace(5), &none),
        Effect::Show(Change { hidden: vec![ids[1]], relayout: true, refocus: true })
    );
    assert_eq!(desk.shown(), [ids[0]]);
    assert_eq!(desk.windows_on(0), [ids[1]]);
    assert!(desk.can_open_in(AREA));
    assert!(!desk.can_open_in(Rect::new(0, 0, i32::MAX, 10)));
}

#[test]
fn a_script_opens_beside_whoever_asked() {
    let values = ConfigValues::default();
    let beside = |anchor: WindowId| PendingKind::Beside {
        anchor,
        side: Direction::Right,
        ratio: 600_000,
    };
    let (launcher, caller) = (Some(WindowId(1)), Some(WindowId(2)));
    assert_eq!(script_place(&values, launcher, true, caller), beside(WindowId(2)));
    assert_eq!(script_place(&values, launcher, true, None), PendingKind::Auto);
    assert_eq!(script_place(&values, launcher, false, None), beside(WindowId(1)));
    assert_eq!(script_place(&values, None, false, None), PendingKind::Auto);
}
