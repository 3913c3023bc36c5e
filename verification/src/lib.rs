//! Compiles a declarative keyboard layout description into the runtime
//! model of views, rows and buttons, together with the shared key states
//! that an input backend mutates while the keyboard is in use.
//!
//! A layout is compiled in these steps:
//!
//! 1. [`source::list_layout_sources`] lists the places that the layout may
//!    be loaded from, the most preferred first.
//! 2. The document that was loaded is a [`document::Layout`].
//! 3. [`document::Layout::known_keysyms`] asks the keysym table which of
//!    the names that matter are keysyms, and [`action::create_action`]
//!    resolves what each button declares into a canonical
//!    [`action::Action`]; anomalies are reported through a
//!    [`util::WarningHandler`] and replaced by defaults.
//! 4. [`keymap::collect_keysyms`] lists the keysyms that need a keycode, and
//!    [`keymap::bind_keycodes`] binds the keycodes that were allocated into
//!    the state of each key.
//! 5. [`document::Layout::assemble`] makes the buttons, and binds all
//!    buttons of one id to one cell of a [`shared::KeyTable`].
//!
//! [`document::Layout::build`] runs steps 3 to 5 in one go, and
//! [`document::Layout::compile`] does so for keysyms that are known already.
//!
//! Every contract is stated over mathematical models: texts are sequences
//! of characters, tables are sequences of entries, and each data type has a
//! model that its view gives.

pub mod seqs;
pub mod text;
pub mod util;
pub mod table;
pub mod document;
pub mod action;
pub mod shared;
pub mod layout;
pub mod keymap;
pub mod assemble;
pub mod source;
pub mod keyboard;
