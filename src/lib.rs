//! Incremental parser for the tmux control-mode protocol: a byte-streaming
//! feeder, a line grammar, the `vis(3)` decoder and a window-layout parser.
pub mod event;
pub mod layout;
pub mod line;
pub mod parser;
pub mod unvis;

pub use event::{Event, Guarded, TmuxPaneId, TmuxSessionId, TmuxWindowId};
pub use layout::{parse_layout, parse_layout_bytes, LayoutError, PaneLayout, WindowLayout};
pub use line::{parse_line, LineError};
pub use parser::{FeedError, Parser};
pub use unvis::{unvis, unvis_bytes, UnvisError};
