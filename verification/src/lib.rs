//! Configuration persistence and script binding for a text editor: a
//! compressed binary store with default-on-corruption loading, a bounded
//! deduplicated recent-files list, and the bridge that narrows dynamic
//! script values into native key, modifier and keybinding records.

pub mod codec;
pub mod flags;
pub mod keybinds;
pub mod recent;
pub mod state;
