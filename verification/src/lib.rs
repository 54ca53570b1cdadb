//! Keyboard-shortcut discovery: the parsers for the two shortcut dialects,
//! and the decisions of the requests that collect shortcuts and styling.
pub mod error;
pub mod fetch;
pub mod hyprland;
pub mod paths;
pub mod simple;
pub mod text;

use vstd::prelude::*;

verus! {

/// An action and the key chord that triggers it.
pub type Binding = (String, String);

/// The name of a file and the bindings read from it.
pub type FileBundle = (String, Vec<Binding>);

/// The model of a [`Binding`]: the action, then the chord.
pub type BindingModel = (Seq<char>, Seq<char>);

/// The model of a [`FileBundle`].
pub type BundleModel = (Seq<char>, Seq<BindingModel>);

} // verus!
