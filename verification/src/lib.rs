//! Core logic of an editor pane item: re-resolving stored navigation markers
//! against an edited buffer, coordinating format-merge-persist save flows for
//! singleton and composite buffers, and picking the diagnostic most relevant
//! to the cursor. Rendering, subscriptions and I/O live outside this crate;
//! the functions here take plain snapshots and outcome values and are verified
//! against the contracts below.

pub mod buffer;
pub mod diagnostics;
pub mod events;
pub mod position;
pub mod save;
pub mod status;
