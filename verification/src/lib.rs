//! notahub: keyboard-driven management of projects, tasks and ideas kept as
//! markdown files. This crate holds the verified core: the data model, the
//! item shortcuts, the markdown storage format, search, and the state machine
//! that turns key presses into new states and storage requests.

pub mod shortcut;
pub mod text;
pub mod model;
pub mod storage;
pub mod search;
pub mod app;
pub mod order;
pub mod event;
pub mod roundtrip;
pub mod view;
