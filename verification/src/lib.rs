//! Core of a retained-mode UI toolkit: a tree of generational entities,
//! sparse per-entity stores, a CSS-subset style engine, an event queue with
//! timed scheduling and bubbling dispatch, and a lens-based data-binding
//! engine that rebuilds subtrees when observed model values change.
//!
//! Platform glue (windowing, rendering, layout solving, localization
//! formatting) lives outside this crate; this crate holds the verified logic.

pub mod binding;
pub mod cache;
pub mod color;
pub mod context;
pub mod entity;
pub mod localization;
pub mod parser;
pub mod proxy;
pub mod events;
pub mod sparse_set;
pub mod style;
pub mod style_types;
pub mod tree;
pub mod units;
pub mod views;

pub use color::Color;
pub use color::css_color;
pub use color::css_string;
pub use entity::Entity;
pub use binding::Data;
pub use binding::Lens;
pub use binding::ModelDataStore;
pub use binding::StateStore;
pub use cache::BoundingBox;
pub use cache::CachedData;
pub use context::Context;
pub use context::EventHandler;
pub use proxy::ContextProxy;
pub use proxy::EventProxy;
pub use proxy::ProxyEmitError;
pub use units::Units;
pub use style::Style;
pub use style_types::BorderCornerShape;
pub use style_types::CursorIcon;
pub use style_types::Display;
pub use style_types::LayoutType;
pub use style_types::Overflow;
pub use style_types::PositionType;
pub use style_types::Property;
pub use style_types::Selector;
pub use style_types::SelectorRelation;
pub use style_types::StyleRule;
pub use style_types::Visibility;
pub use entity::IdManager;
pub use events::Event;
pub use localization::Localized;
pub use localization::LocalizedArg;
pub use parser::CustomParseError;
pub use parser::Token;
pub use events::EventSchedule;
pub use events::Propagation;
pub use events::TimedEvent;
pub use events::TimedEventHandle;
pub use sparse_set::SparseSet;
pub use tree::Tree;
pub use tree::TreeError;
pub use views::Binding;
pub use views::Checkbox;
pub use views::DataHandle;
pub use views::Dropdown;
pub use views::Element;
pub use views::ForEach;
pub use views::Group;
pub use views::HStack;
pub use views::ItemPtr;
pub use views::Label;
pub use views::List;
pub use views::ListData;
pub use views::ListEvent;
pub use views::Picker;
pub use views::PickerEvent;
pub use views::PickerItem;
pub use views::Popup;
pub use views::PopupData;
pub use views::PopupEvent;
pub use views::RadioButton;
pub use views::VStack;
pub use views::ZStack;
