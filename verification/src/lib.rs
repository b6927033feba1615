//! A terminal rendering and input core: a widget-composition layout
//! engine that renders styled text to a character grid and serializes it
//! as a minimal ANSI escape stream, together with an incremental byte
//! decoder that turns raw terminal input into discrete key events.

pub mod cell;
pub mod geom;
pub mod model;
pub mod widget;
pub mod keys;
pub mod render;
pub mod laws;
pub mod theme;
pub mod textutil;

pub use cell::Color;
pub use cell::VChar;
pub use widget::Widget;
pub use widget::AnyWidget;
pub use widget::IntoWidget;
pub use widget::VTerm;
pub use widget::VText;
pub use widget::Margin;
pub use widget::Center;
pub use widget::Spacer;
pub use widget::VMax;
pub use widget::Background;
pub use widget::VBox;
pub use widget::SIMPLE_BOX;
pub use widget::BORDER_BOX;
pub use widget::DOUBLE_BORDER_BOX;
pub use widget::NONE_BOX;
pub use widget::GridH;
pub use widget::GridV;
pub use widget::WithMargin;
pub use widget::WithCenter;
pub use widget::WithSpacer;
pub use widget::WithMax;
pub use widget::WithBox;
pub use widget::WithBackground;
pub use keys::Key;
pub use render::render_to_string;
pub use theme::Theme;
pub use textutil::tidy;
pub use textutil::string_hash;
pub use textutil::transpose;
