//! A terminal document viewer's core: the markdown block normalizer, the
//! inline style tokenizer and the view/scroll state machine.

mod cmark;
pub mod normalize;
mod text;
pub mod tokenize;
pub mod view;

pub use cmark::Block;
pub use normalize::{collapse_blank_lines, markdown_events, render_events, MdEvent};
pub use tokenize::{tokenize_line, Style, StyledSegment};
pub use view::{active_line_count, is_markdown_path, visible_window, Action, AppState, Outcome, ViewMode, PAGE};
