pub mod document;
pub mod editor;
pub mod filetype;
pub mod highlighting;
pub mod row;
pub mod terminal;
pub mod text;

pub use document::Document;
pub use editor::Editor;
pub use editor::EditorAction;
pub use editor::Key;
pub use editor::Position;
pub use editor::SearchDirection;
pub use editor::StatusMessage;
pub use filetype::FileType;
pub use filetype::HighlightingOptions;
pub use highlighting::Color;
pub use highlighting::HighlightState;
pub use highlighting::Type;
pub use row::Row;
pub use terminal::Size;
pub use terminal::Terminal;
