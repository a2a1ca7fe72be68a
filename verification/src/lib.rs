//! A small harness that exposes a scalar-valued function of several numeric
//! inputs as an interactive desktop form.
//!
//! The verified core covers three things: the input model (descriptors of the
//! form's fields), the form generator (a pure function from descriptors to a
//! markup document), and the session protocol (splitting a submitted value
//! string, deciding whether an invocation may proceed, building the output
//! update script, and the window lifecycle state machine). Window creation,
//! the rendering surface and the event loop live outside the library and only
//! exchange plain values with it.

pub mod markup;
pub mod model;
pub mod session;

pub use model::Input;
