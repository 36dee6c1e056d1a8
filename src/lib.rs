pub mod app;
pub mod input;
pub mod lemmas;
pub mod project;
pub mod snapshot;
pub mod text;

pub use app::{App, SortBy};
pub use input::{handle_event, Control, Event, Key, KeyPress};
pub use project::{project, project_lowered, OrderedView, MAX_ROWS};
pub use snapshot::{cpu_rank, ProcessRecord, Snapshot};
