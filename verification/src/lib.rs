//! Reconciliation core of a declarative UI runtime.
//!
//! Application logic produces an immutable [`view::ViewNode`] tree each cycle;
//! the [`app::App`] driver diffs it against the previous tree, patching a
//! retained [`widget::Pod`] tree in place, and routes events and
//! asynchronous wake notifications back into application logic through
//! stable hierarchical identifiers ([`id::IdPath`]).

pub mod app;
pub mod context;
pub mod event;
pub mod id;
pub mod view;
pub mod wake;
pub mod widget;
