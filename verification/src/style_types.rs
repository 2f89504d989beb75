//! The typed values style declarations carry: enums for layout, position,
//! display, overflow, cursor and border shape, font metadata, transitions,
//! shadows, pseudo-class and ability flags, and the selector shape.

use vstd::prelude::*;
use crate::color::Color;
use crate::units::Units;

verus! {

/// How a container arranges its children.
#[derive(Debug, Clone, Copy, PartialEq, Eq, Structural)]
pub enum LayoutType {
    Row,
    Column,
    Grid,
}

/// Whether an entity is positioned by its parent or by itself.
#[derive(Debug, Clone, Copy, PartialEq, Eq, Structural)]
pub enum PositionType {
    SelfDirected,
    ParentDirected,
}

/// Whether an entity takes part in layout at all.
#[derive(Debug, Clone, Copy, PartialEq, Eq, Structural)]
pub enum Display {
    /// Not laid out and not drawn.
    Gone,
    Flex,
}

/// Whether an entity is drawn.
#[derive(Debug, Clone, Copy, PartialEq, Eq, Structural)]
pub enum Visibility {
    Visible,
    Invisible,
}

/// Whether content outside the bounds is clipped.
#[derive(Debug, Clone, Copy, PartialEq, Eq, Structural)]
pub enum Overflow {
    Visible,
    Hidden,
}

/// The shape of one border corner.
#[derive(Debug, Clone, Copy, PartialEq, Eq, Structural)]
pub enum BorderCornerShape {
    Round,
    Bevel,
}

/// The mouse cursor to show over an entity.
#[derive(Debug, Clone, Copy, PartialEq, Eq, Structural)]
pub enum CursorIcon {
    Default,
    Crosshair,
    Hand,
    Arrow,
    Move,
    Text,
    Wait,
    Help,
    Progress,
    NotAllowed,
    ContextMenu,
    Cell,
    VerticalText,
    Alias,
    Copy,
    NoDrop,
    Grab,
    Grabbing,
    AllScroll,
    ZoomIn,
    ZoomOut,
    EResize,
    NResize,
    NeResize,
    NwResize,
    SResize,
    SeResize,
    SwResize,
    WResize,
    EwResize,
    NsResize,
    NeswResize,
    NwseResize,
    ColResize,
    RowResize,
    /// No cursor is shown.
    Hidden,
}

/// Font slant.
#[derive(Debug, Clone, Copy, PartialEq, Eq, Structural)]
pub enum FontStyle {
    Normal,
    Italic,
    Oblique,
}

/// Font weight, 1 to 1000.
#[derive(Debug, Clone, Copy, PartialEq, Eq, Structural)]
pub struct Weight(pub u16);

/// A font family: a generic family or a named one.
#[derive(Debug, Clone, PartialEq, Eq)]
pub enum FamilyOwned {
    Serif,
    SansSerif,
    Monospace,
    Cursive,
    Fantasy,
    Name(String),
}

/// An animated transition of one property: duration and delay in thousandths
/// of a second.
#[derive(Debug, Clone, PartialEq, Eq)]
pub struct Transition {
    pub property: String,
    pub duration: i64,
    pub delay: i64,
}

impl Transition {
    pub fn new() -> (t: Transition)
        ensures
            t.property@ == Seq::<char>::empty(),
            t.duration == 0,
            t.delay == 0,
    {
        Transition { property: String::new(), duration: 0, delay: 0 }
    }
}

/// A drop shadow: offsets and blur in thousandths of a pixel.
#[derive(Debug, Clone, PartialEq, Eq, Structural)]
pub struct BoxShadow {
    pub horizontal_offset: Units,
    pub vertical_offset: Units,
    pub blur_radius: Units,
    pub color: Color,
}

/// Pseudo-class state flags, as a bit mask.
pub const PSEUDO_HOVER: u32 = 1;
pub const PSEUDO_OVER: u32 = 2;
pub const PSEUDO_ACTIVE: u32 = 4;
pub const PSEUDO_FOCUS: u32 = 8;
pub const PSEUDO_DISABLED: u32 = 16;
pub const PSEUDO_CHECKED: u32 = 32;
pub const PSEUDO_SELECTED: u32 = 64;
pub const PSEUDO_CUSTOM: u32 = 128;
pub const PSEUDO_FOCUS_WITHIN: u32 = 256;
pub const PSEUDO_FOCUS_VISIBLE: u32 = 512;
pub const PSEUDO_ROOT: u32 = 1024;

/// Ability flags, as a bit mask.
pub const ABILITY_HOVERABLE: u32 = 1;
pub const ABILITY_FOCUSABLE: u32 = 2;
pub const ABILITY_NAVIGABLE: u32 = 4;

/// Does `flags` contain every bit of `mask`?
pub open spec fn spec_has_bits(flags: u32, mask: u32) -> bool {
    flags & mask == mask
}

/// Bit-mask containment test used for pseudo-classes and abilities.
pub fn has_bits(flags: u32, mask: u32) -> (r: bool)
    ensures
        r == spec_has_bits(flags, mask),
{
    flags & mask == mask
}

/// How a selector in a chain relates to the one that follows it.
#[derive(Debug, Clone, Copy, PartialEq, Eq, Structural)]
pub enum SelectorRelation {
    /// Last selector of a chain (or an alternative on its own).
    End,
    /// The following selector must match some strict ancestor.
    Ancestor,
    /// The following selector must match the direct parent.
    Parent,
}

/// One simple selector: optional element name, optional id, classes, required
/// pseudo-class bits, and its relation to the next selector in the list.
#[derive(Debug, Clone, PartialEq, Eq)]
pub struct Selector {
    pub asterisk: bool,
    pub element: Option<String>,
    pub id: Option<String>,
    pub classes: Vec<String>,
    pub pseudo_classes: u32,
    pub relation: SelectorRelation,
}

impl Selector {
    /// The selector that matches everything.
    pub fn default() -> (s: Selector)
        ensures
            !s.asterisk,
            s.element is None,
            s.id is None,
            s.classes@.len() == 0,
            s.pseudo_classes == 0,
            s.relation == SelectorRelation::End,
    {
        Selector {
            asterisk: false,
            element: None,
            id: None,
            classes: Vec::new(),
            pseudo_classes: 0,
            relation: SelectorRelation::End,
        }
    }
}

/// The value carried by a property the grammar does not know by name.
#[derive(Debug, Clone, PartialEq, Eq)]
pub enum PropType {
    Units(Units),
    String(String),
}

/// One parsed style declaration.
#[derive(Debug, Clone, PartialEq, Eq)]
pub enum Property {
    BackgroundColor(Color),
    FontColor(Color),
    BackgroundImage(String),
    PositionType(PositionType),
    Left(Units),
    Right(Units),
    Top(Units),
    Bottom(Units),
    Space(Units),
    MinLeft(Units),
    MaxLeft(Units),
    MinRight(Units),
    MaxRight(Units),
    MinTop(Units),
    MaxTop(Units),
    MinBottom(Units),
    MaxBottom(Units),
    LayoutType(LayoutType),
    Width(Units),
    Height(Units),
    MinWidth(Units),
    MinHeight(Units),
    MaxWidth(Units),
    MaxHeight(Units),
    ChildSpace(Units),
    ChildLeft(Units),
    ChildRight(Units),
    ChildTop(Units),
    ChildBottom(Units),
    RowBetween(Units),
    ColBetween(Units),
    FontSize(i64),
    FontFamily(Vec<FamilyOwned>),
    FontWeight(Weight),
    FontStyle(FontStyle),
    TextWrap(bool),
    SelectionColor(Color),
    CaretColor(Color),
    BorderWidth(Units),
    BorderColor(Color),
    BorderRadius(Units),
    BorderTopLeftRadius(Units),
    BorderTopRightRadius(Units),
    BorderBottomLeftRadius(Units),
    BorderBottomRightRadius(Units),
    BorderCornerShape(BorderCornerShape),
    BorderTopLeftShape(BorderCornerShape),
    BorderTopRightShape(BorderCornerShape),
    BorderBottomLeftShape(BorderCornerShape),
    BorderBottomRightShape(BorderCornerShape),
    OutlineWidth(Units),
    OutlineColor(Color),
    OutlineOffset(Units),
    Opacity(i64),
    Display(Display),
    Visibility(Visibility),
    Overflow(Overflow),
    OuterShadow(BoxShadow),
    OuterShadowHOffset(Units),
    OuterShadowVOffset(Units),
    OuterShadowBlur(Units),
    OuterShadowColor(Color),
    InnerShadow(BoxShadow),
    InnerShadowHOffset(Units),
    InnerShadowVOffset(Units),
    InnerShadowBlur(Units),
    InnerShadowColor(Color),
    Transition(Vec<Transition>),
    ZIndex(i32),
    Cursor(CursorIcon),
    Unknown(String, PropType),
}

/// Identity of a style rule within the rule list.
#[derive(Debug, Clone, Copy, PartialEq, Eq, Structural)]
pub struct Rule(pub usize);

/// One parsed rule: its selectors and its declarations, in source order.
#[derive(Debug, Clone, PartialEq, Eq)]
pub struct StyleRule {
    pub id: Rule,
    pub selectors: Vec<Selector>,
    pub properties: Vec<Property>,
}

} // verus!
