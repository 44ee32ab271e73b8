use kmuxd::capability::{intersect_for_atomics, pane_spawn_env};
use kmuxd::protocol::ClientCapabilities;

fn caps(kitty_graphics: bool, kitty_keyboard: bool, truecolor: bool) -> ClientCapabilities {
    ClientCapabilities { kitty_graphics, kitty_keyboard, truecolor }
}

#[test]
fn intersect_empty_is_false_false() {
    assert_eq!(intersect_for_atomics(&[]), (false, false));
}

#[test]
fn intersect_single_client_passes_through() {
    let c = caps(true, false, true);
    assert_eq!(intersect_for_atomics(&[c]), (true, false));
}

#[test]
fn intersect_two_clients_ands_flags() {
    let a = caps(true, true, true);
    let b = caps(true, false, true);
    assert_eq!(intersect_for_atomics(&[a, b]), (true, false));
}

#[test]
fn intersect_one_without_graphics_disables_it() {
    let a = caps(true, true, true);
    let b = caps(false, true, true);
    assert_eq!(intersect_for_atomics(&[a, b]), (false, true));
}

#[test]
fn pane_spawn_env_has_required_keys() {
    let env = pane_spawn_env(&caps(false, false, false));
    let get = |name: &str| env.iter().find(|v| v.name == name).map(|v| v.value.as_str());
    assert_eq!(get("TERM"), Some("xterm-256color"));
    assert_eq!(get("COLORTERM"), Some("truecolor"));
    assert_eq!(get("TERM_PROGRAM"), Some("kmux"));
    assert!(get("TERM_PROGRAM_VERSION").is_some());
}
