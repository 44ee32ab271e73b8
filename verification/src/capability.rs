//! Which terminal features a pane may use, given what its clients can show.

use crate::protocol::ClientCapabilities;
use vstd::prelude::*;

verus! {

/// Every client of a non-empty list can show kitty graphics.
pub open spec fn all_graphics(caps: Seq<ClientCapabilities>) -> bool {
    caps.len() > 0 && forall|i: int| 0 <= i < caps.len() ==> (#[trigger] caps[i]).kitty_graphics
}

/// Every client of a non-empty list speaks the kitty keyboard protocol.
pub open spec fn all_keyboard(caps: Seq<ClientCapabilities>) -> bool {
    caps.len() > 0 && forall|i: int| 0 <= i < caps.len() ==> (#[trigger] caps[i]).kitty_keyboard
}

/// Compute the kitty feature flags for a pane's backend by ANDing all attached clients' declared
/// capabilities. Returns `(kitty_graphics, kitty_keyboard)`; with no clients, neither.
pub fn intersect_for_atomics(caps: &[ClientCapabilities]) -> (r: (bool, bool))
    ensures
        r == (all_graphics(caps@), all_keyboard(caps@)),
{
    let mut graphics = true;
    let mut keyboard = true;
    let mut i: usize = 0;
    while i < caps.len()
        invariant
            0 <= i <= caps@.len(),
            graphics <==> (forall|j: int| 0 <= j < i ==> (#[trigger] caps@[j]).kitty_graphics),
            keyboard <==> (forall|j: int| 0 <= j < i ==> (#[trigger] caps@[j]).kitty_keyboard),
        decreases caps@.len() - i,
    {
        let c = caps[i];
        graphics = graphics && c.kitty_graphics;
        keyboard = keyboard && c.kitty_keyboard;
        i = i + 1;
    }
    if caps.len() > 0 {
        (graphics, keyboard)
    } else {
        (false, false)
    }
}

/// Another client can only take features away, never add them.
pub proof fn law_more_clients_fewer_features(caps: Seq<ClientCapabilities>, c: ClientCapabilities)
    requires
        caps.len() > 0,
    ensures
        all_graphics(caps.push(c)) == (all_graphics(caps) && c.kitty_graphics),
        all_keyboard(caps.push(c)) == (all_keyboard(caps) && c.kitty_keyboard),
{
    let more = caps.push(c);
    assert(more[caps.len() as int] == c);
    assert forall|i: int| 0 <= i < caps.len() implies #[trigger] more[i] == caps[i] by {}
    if all_graphics(more) {
        assert forall|i: int| 0 <= i < caps.len() implies (#[trigger] caps[i]).kitty_graphics by {
            assert(more[i].kitty_graphics);
        }
    }
    if all_keyboard(more) {
        assert forall|i: int| 0 <= i < caps.len() implies (#[trigger] caps[i]).kitty_keyboard by {
            assert(more[i].kitty_keyboard);
        }
    }
}

/// One environment variable.
#[derive(Clone, Debug)]
pub struct EnvVar {
    pub name: String,
    pub value: String,
}

/// The version reported to clients, and to programs in a pane.
pub const SERVER_VERSION: &'static str = "0.1.0";

/// The variables set for every shell spawned inside a pane.
pub open spec fn is_spawn_env(env: Seq<EnvVar>) -> bool {
    &&& env.len() == 4
    &&& env[0].name@ == "TERM"@ && env[0].value@ == "xterm-256color"@
    &&& env[1].name@ == "COLORTERM"@ && env[1].value@ == "truecolor"@
    &&& env[2].name@ == "TERM_PROGRAM"@ && env[2].value@ == "kmux"@
    &&& env[3].name@ == "TERM_PROGRAM_VERSION"@ && env[3].value@ == SERVER_VERSION@
}

/// Build the environment variable overrides that are applied to every shell spawned inside a
/// pane. They describe the emulator, whatever the client that asked for the pane.
pub fn pane_spawn_env(_seed_caps: &ClientCapabilities) -> (r: Vec<EnvVar>)
    ensures
        is_spawn_env(r@),
{
    vec![
        EnvVar { name: "TERM".to_owned(), value: "xterm-256color".to_owned() },
        EnvVar { name: "COLORTERM".to_owned(), value: "truecolor".to_owned() },
        EnvVar { name: "TERM_PROGRAM".to_owned(), value: "kmux".to_owned() },
        EnvVar {
            name: "TERM_PROGRAM_VERSION".to_owned(),
            value: SERVER_VERSION.to_owned(),
        },
    ]
}

} // verus!
