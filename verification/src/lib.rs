//! Builds web sites from component trees.
//!
//! A page is a tree of intrinsic and virtual nodes that a scripting engine
//! hands over. The tree is stored in an arena, every intrinsic node is tagged
//! with the class of the component that declared it, the style sheets of the
//! components are gathered once per component with their selectors scoped to
//! that class, and the arena is serialised to HTML into which the style sheet
//! and the client script are injected.
//!
//! The engine lives in an environment actor that builds one page at a time;
//! a manager replaces the actor as a whole when a source changes. How actor
//! and manager move from state to state is decided here; threads, channels,
//! files and the engine itself are left to the program around the library.

pub mod text;
pub mod path;
pub mod value;
pub mod dom;
pub mod selector;
pub mod env;
pub mod page;
pub mod loader;
pub mod src_fs;
pub mod fs;
pub mod vfs;
pub mod site;
pub mod server;
