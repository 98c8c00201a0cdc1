//! An embeddable command-interpreter extension layer.
//!
//! The library lets natively implemented commands ("builtins") be registered
//! with a command interpreter, dispatches interpreter invocations back to the
//! matching native function, marshals word-list arguments across the call
//! boundary, recovers structured errors from the interpreter's error callback
//! (including errors raised inside a forked subshell), and provides scoped
//! guards that revert interpreter-visible state on scope exit.
//!
//! The interpreter's own state that this layer reads and writes — shell
//! options, variable bindings, the builtin table, the error slots — is held
//! explicitly in a `Shell` value, so every state transition the layer
//! performs is specified and machine-checked.  The thin process-level glue
//! that a real embedding needs (signals, process exit, timing loops) lives
//! outside the library and drives it through these entry points.

pub mod bash;
pub mod builtins;
pub mod command;
pub mod error;
pub mod functions;
pub mod names;
pub mod options;
pub mod shell;
pub mod source;
pub mod status;
pub mod text;
pub mod traits;
pub mod variables;
pub mod version;

pub use error::Error;
pub use error::ErrorV;
pub use shell::Shell;
pub use status::ExecStatus;
pub use status::EXECUTION_SUCCESS;
pub use status::EX_LONGJMP;
