//! The style state: the global rule list, one sparse store per property, the
//! process-wide dirty flags, and the cascade.
//!
//! The cascade applies, for one entity, every rule whose selector list
//! matches, in rule source order, each rule's declarations in source order:
//! the last write wins, with no specificity weighting.  Selector lists hold
//! comma-separated alternatives; within one chain, `Parent` links require the
//! direct parent to match and `Ancestor` links bind to the nearest matching
//! strict ancestor.

use vstd::prelude::*;
use crate::color::Color;
use crate::color::str_eq;
use crate::entity::Entity;
use crate::sparse_set::SparseSet;
use crate::sparse_set::SPARSE_NULL;
use crate::style_types::CursorIcon;
use crate::style_types::Display;
use crate::style_types::LayoutType;
use crate::style_types::Overflow;
use crate::style_types::PositionType;
use crate::style_types::Property;
use crate::style_types::Visibility;
use crate::style_types::Selector;
use crate::style_types::SelectorRelation;
use crate::style_types::StyleRule;
use crate::style_types::spec_has_bits;
use crate::style_types::has_bits;
use crate::style_types::ABILITY_HOVERABLE;
use crate::tree::Tree;
use crate::units::Units;

verus! {

broadcast use vstd::std_specs::vec::group_vec_axioms;

/// Per-entity style stores plus the rule list and frame dirty flags.
#[derive(Debug)]
pub struct Style {
    /// The parsed rules, in source order.
    pub rules: Vec<StyleRule>,
    /// Some entity needs the cascade re-run.
    pub needs_restyle: bool,
    /// The layout pass must re-run.
    pub needs_relayout: bool,
    /// The scene must be redrawn.
    pub needs_redraw: bool,
    /// Name of the font used when an entity sets none.
    pub default_font: String,
    pub width: SparseSet<Units>,
    pub height: SparseSet<Units>,
    pub left: SparseSet<Units>,
    pub right: SparseSet<Units>,
    pub top: SparseSet<Units>,
    pub bottom: SparseSet<Units>,
    pub child_left: SparseSet<Units>,
    pub child_right: SparseSet<Units>,
    pub child_top: SparseSet<Units>,
    pub child_bottom: SparseSet<Units>,
    pub min_width: SparseSet<Units>,
    pub min_height: SparseSet<Units>,
    pub max_width: SparseSet<Units>,
    pub max_height: SparseSet<Units>,
    pub border_width: SparseSet<Units>,
    pub border_radius_top_left: SparseSet<Units>,
    pub border_radius_top_right: SparseSet<Units>,
    pub border_radius_bottom_left: SparseSet<Units>,
    pub border_radius_bottom_right: SparseSet<Units>,
    pub background_color: SparseSet<Color>,
    pub font_color: SparseSet<Color>,
    pub border_color: SparseSet<Color>,
    pub layout_type: SparseSet<LayoutType>,
    pub position_type: SparseSet<PositionType>,
    pub display: SparseSet<Display>,
    pub visibility: SparseSet<Visibility>,
    pub overflow: SparseSet<Overflow>,
    pub cursor: SparseSet<CursorIcon>,
    pub z_order: SparseSet<i32>,
    pub font_size: SparseSet<i64>,
    pub font: SparseSet<String>,
    pub text: SparseSet<String>,
    pub elements: SparseSet<String>,
    pub ids: SparseSet<String>,
    pub classes: SparseSet<Vec<String>>,
    pub pseudo_classes: SparseSet<u32>,
    pub abilities: SparseSet<u32>,
    pub disabled: SparseSet<bool>,
}

/// Ghost snapshot of every per-entity property map, for stating what the
/// cascade does.
pub struct StyleMaps {
    pub width: Map<usize, Units>,
    pub height: Map<usize, Units>,
    pub left: Map<usize, Units>,
    pub right: Map<usize, Units>,
    pub top: Map<usize, Units>,
    pub bottom: Map<usize, Units>,
    pub child_left: Map<usize, Units>,
    pub child_right: Map<usize, Units>,
    pub child_top: Map<usize, Units>,
    pub child_bottom: Map<usize, Units>,
    pub min_width: Map<usize, Units>,
    pub min_height: Map<usize, Units>,
    pub max_width: Map<usize, Units>,
    pub max_height: Map<usize, Units>,
    pub border_width: Map<usize, Units>,
    pub border_radius_top_left: Map<usize, Units>,
    pub border_radius_top_right: Map<usize, Units>,
    pub border_radius_bottom_left: Map<usize, Units>,
    pub border_radius_bottom_right: Map<usize, Units>,
    pub background_color: Map<usize, Color>,
    pub font_color: Map<usize, Color>,
    pub border_color: Map<usize, Color>,
    pub layout_type: Map<usize, LayoutType>,
    pub position_type: Map<usize, PositionType>,
    pub display: Map<usize, Display>,
    pub visibility: Map<usize, Visibility>,
    pub overflow: Map<usize, Overflow>,
    pub cursor: Map<usize, CursorIcon>,
    pub z_order: Map<usize, i32>,
    pub font_size: Map<usize, i64>,
    pub font: Map<usize, String>,
    pub text: Map<usize, String>,
    pub elements: Map<usize, String>,
    pub ids: Map<usize, String>,
    pub classes: Map<usize, Vec<String>>,
    pub pseudo_classes: Map<usize, u32>,
    pub abilities: Map<usize, u32>,
    pub disabled: Map<usize, bool>,
}

impl Style {
    pub open spec fn maps(self) -> StyleMaps {
        StyleMaps {
            width: self.width.as_map(),
            height: self.height.as_map(),
            left: self.left.as_map(),
            right: self.right.as_map(),
            top: self.top.as_map(),
            bottom: self.bottom.as_map(),
            child_left: self.child_left.as_map(),
            child_right: self.child_right.as_map(),
            child_top: self.child_top.as_map(),
            child_bottom: self.child_bottom.as_map(),
            min_width: self.min_width.as_map(),
            min_height: self.min_height.as_map(),
            max_width: self.max_width.as_map(),
            max_height: self.max_height.as_map(),
            border_width: self.border_width.as_map(),
            border_radius_top_left: self.border_radius_top_left.as_map(),
            border_radius_top_right: self.border_radius_top_right.as_map(),
            border_radius_bottom_left: self.border_radius_bottom_left.as_map(),
            border_radius_bottom_right: self.border_radius_bottom_right.as_map(),
            background_color: self.background_color.as_map(),
            font_color: self.font_color.as_map(),
            border_color: self.border_color.as_map(),
            layout_type: self.layout_type.as_map(),
            position_type: self.position_type.as_map(),
            display: self.display.as_map(),
            visibility: self.visibility.as_map(),
            overflow: self.overflow.as_map(),
            cursor: self.cursor.as_map(),
            z_order: self.z_order.as_map(),
            font_size: self.font_size.as_map(),
            font: self.font.as_map(),
            text: self.text.as_map(),
            elements: self.elements.as_map(),
            ids: self.ids.as_map(),
            classes: self.classes.as_map(),
            pseudo_classes: self.pseudo_classes.as_map(),
            abilities: self.abilities.as_map(),
            disabled: self.disabled.as_map(),
        }
    }

    pub open spec fn wf(self) -> bool {
        &&& self.width.wf()
        &&& self.height.wf()
        &&& self.left.wf()
        &&& self.right.wf()
        &&& self.top.wf()
        &&& self.bottom.wf()
        &&& self.child_left.wf()
        &&& self.child_right.wf()
        &&& self.child_top.wf()
        &&& self.child_bottom.wf()
        &&& self.min_width.wf()
        &&& self.min_height.wf()
        &&& self.max_width.wf()
        &&& self.max_height.wf()
        &&& self.border_width.wf()
        &&& self.border_radius_top_left.wf()
        &&& self.border_radius_top_right.wf()
        &&& self.border_radius_bottom_left.wf()
        &&& self.border_radius_bottom_right.wf()
        &&& self.background_color.wf()
        &&& self.font_color.wf()
        &&& self.border_color.wf()
        &&& self.layout_type.wf()
        &&& self.position_type.wf()
        &&& self.display.wf()
        &&& self.visibility.wf()
        &&& self.overflow.wf()
        &&& self.cursor.wf()
        &&& self.z_order.wf()
        &&& self.font_size.wf()
        &&& self.font.wf()
        &&& self.text.wf()
        &&& self.elements.wf()
        &&& self.ids.wf()
        &&& self.classes.wf()
        &&& self.pseudo_classes.wf()
        &&& self.abilities.wf()
        &&& self.disabled.wf()
    }

    /// A fresh style state: no rules, empty stores, everything clean.
    pub fn new() -> (s: Style)
        ensures
            s.wf(),
            s.rules@.len() == 0,
            !s.needs_restyle,
            !s.needs_relayout,
            !s.needs_redraw,
            s.width.as_map() == Map::<usize, Units>::empty(),
            s.height.as_map() == Map::<usize, Units>::empty(),
            s.left.as_map() == Map::<usize, Units>::empty(),
            s.right.as_map() == Map::<usize, Units>::empty(),
            s.top.as_map() == Map::<usize, Units>::empty(),
            s.bottom.as_map() == Map::<usize, Units>::empty(),
            s.child_left.as_map() == Map::<usize, Units>::empty(),
            s.child_right.as_map() == Map::<usize, Units>::empty(),
            s.child_top.as_map() == Map::<usize, Units>::empty(),
            s.child_bottom.as_map() == Map::<usize, Units>::empty(),
            s.min_width.as_map() == Map::<usize, Units>::empty(),
            s.min_height.as_map() == Map::<usize, Units>::empty(),
            s.max_width.as_map() == Map::<usize, Units>::empty(),
            s.max_height.as_map() == Map::<usize, Units>::empty(),
            s.border_width.as_map() == Map::<usize, Units>::empty(),
            s.border_radius_top_left.as_map() == Map::<usize, Units>::empty(),
            s.border_radius_top_right.as_map() == Map::<usize, Units>::empty(),
            s.border_radius_bottom_left.as_map() == Map::<usize, Units>::empty(),
            s.border_radius_bottom_right.as_map() == Map::<usize, Units>::empty(),
            s.background_color.as_map() == Map::<usize, Color>::empty(),
            s.font_color.as_map() == Map::<usize, Color>::empty(),
            s.border_color.as_map() == Map::<usize, Color>::empty(),
            s.layout_type.as_map() == Map::<usize, LayoutType>::empty(),
            s.position_type.as_map() == Map::<usize, PositionType>::empty(),
            s.display.as_map() == Map::<usize, Display>::empty(),
            s.visibility.as_map() == Map::<usize, Visibility>::empty(),
            s.overflow.as_map() == Map::<usize, Overflow>::empty(),
            s.cursor.as_map() == Map::<usize, CursorIcon>::empty(),
            s.z_order.as_map() == Map::<usize, i32>::empty(),
            s.font_size.as_map() == Map::<usize, i64>::empty(),
            s.font.as_map() == Map::<usize, String>::empty(),
            s.text.as_map() == Map::<usize, String>::empty(),
            s.elements.as_map() == Map::<usize, String>::empty(),
            s.ids.as_map() == Map::<usize, String>::empty(),
            s.classes.as_map() == Map::<usize, Vec<String>>::empty(),
            s.pseudo_classes.as_map() == Map::<usize, u32>::empty(),
            s.abilities.as_map() == Map::<usize, u32>::empty(),
            s.disabled.as_map() == Map::<usize, bool>::empty(),
    {
        Style {
            rules: Vec::new(),
            needs_restyle: false,
            needs_relayout: false,
            needs_redraw: false,
            default_font: String::new(),
            width: SparseSet::new(),
            height: SparseSet::new(),
            left: SparseSet::new(),
            right: SparseSet::new(),
            top: SparseSet::new(),
            bottom: SparseSet::new(),
            child_left: SparseSet::new(),
            child_right: SparseSet::new(),
            child_top: SparseSet::new(),
            child_bottom: SparseSet::new(),
            min_width: SparseSet::new(),
            min_height: SparseSet::new(),
            max_width: SparseSet::new(),
            max_height: SparseSet::new(),
            border_width: SparseSet::new(),
            border_radius_top_left: SparseSet::new(),
            border_radius_top_right: SparseSet::new(),
            border_radius_bottom_left: SparseSet::new(),
            border_radius_bottom_right: SparseSet::new(),
            background_color: SparseSet::new(),
            font_color: SparseSet::new(),
            border_color: SparseSet::new(),
            layout_type: SparseSet::new(),
            position_type: SparseSet::new(),
            display: SparseSet::new(),
            visibility: SparseSet::new(),
            overflow: SparseSet::new(),
            cursor: SparseSet::new(),
            z_order: SparseSet::new(),
            font_size: SparseSet::new(),
            font: SparseSet::new(),
            text: SparseSet::new(),
            elements: SparseSet::new(),
            ids: SparseSet::new(),
            classes: SparseSet::new(),
            pseudo_classes: SparseSet::new(),
            abilities: SparseSet::new(),
            disabled: SparseSet::new(),
        }
    }

    /// Did `final` come out of `old` by dropping entity index `k` from every
    /// per-entity store?
    pub open spec fn purged(self, older: Style, k: usize) -> bool {
        &&& self.width.as_map() == older.width.as_map().remove(k)
        &&& self.height.as_map() == older.height.as_map().remove(k)
        &&& self.left.as_map() == older.left.as_map().remove(k)
        &&& self.right.as_map() == older.right.as_map().remove(k)
        &&& self.top.as_map() == older.top.as_map().remove(k)
        &&& self.bottom.as_map() == older.bottom.as_map().remove(k)
        &&& self.child_left.as_map() == older.child_left.as_map().remove(k)
        &&& self.child_right.as_map() == older.child_right.as_map().remove(k)
        &&& self.child_top.as_map() == older.child_top.as_map().remove(k)
        &&& self.child_bottom.as_map() == older.child_bottom.as_map().remove(k)
        &&& self.min_width.as_map() == older.min_width.as_map().remove(k)
        &&& self.min_height.as_map() == older.min_height.as_map().remove(k)
        &&& self.max_width.as_map() == older.max_width.as_map().remove(k)
        &&& self.max_height.as_map() == older.max_height.as_map().remove(k)
        &&& self.border_width.as_map() == older.border_width.as_map().remove(k)
        &&& self.border_radius_top_left.as_map() == older.border_radius_top_left.as_map().remove(k)
        &&& self.border_radius_top_right.as_map() == older.border_radius_top_right.as_map().remove(k)
        &&& self.border_radius_bottom_left.as_map() == older.border_radius_bottom_left.as_map().remove(k)
        &&& self.border_radius_bottom_right.as_map() == older.border_radius_bottom_right.as_map().remove(k)
        &&& self.background_color.as_map() == older.background_color.as_map().remove(k)
        &&& self.font_color.as_map() == older.font_color.as_map().remove(k)
        &&& self.border_color.as_map() == older.border_color.as_map().remove(k)
        &&& self.layout_type.as_map() == older.layout_type.as_map().remove(k)
        &&& self.position_type.as_map() == older.position_type.as_map().remove(k)
        &&& self.display.as_map() == older.display.as_map().remove(k)
        &&& self.visibility.as_map() == older.visibility.as_map().remove(k)
        &&& self.overflow.as_map() == older.overflow.as_map().remove(k)
        &&& self.cursor.as_map() == older.cursor.as_map().remove(k)
        &&& self.z_order.as_map() == older.z_order.as_map().remove(k)
        &&& self.font_size.as_map() == older.font_size.as_map().remove(k)
        &&& self.font.as_map() == older.font.as_map().remove(k)
        &&& self.text.as_map() == older.text.as_map().remove(k)
        &&& self.elements.as_map() == older.elements.as_map().remove(k)
        &&& self.ids.as_map() == older.ids.as_map().remove(k)
        &&& self.classes.as_map() == older.classes.as_map().remove(k)
        &&& self.pseudo_classes.as_map() == older.pseudo_classes.as_map().remove(k)
        &&& self.abilities.as_map() == older.abilities.as_map().remove(k)
        &&& self.disabled.as_map() == older.disabled.as_map().remove(k)
    }


    /// No per-entity store holds anything at index `k`.
    pub closed spec fn absent_at(self, k: usize) -> bool {
        &&& !self.width.contains_key(k)
        &&& !self.height.contains_key(k)
        &&& !self.left.contains_key(k)
        &&& !self.right.contains_key(k)
        &&& !self.top.contains_key(k)
        &&& !self.bottom.contains_key(k)
        &&& !self.child_left.contains_key(k)
        &&& !self.child_right.contains_key(k)
        &&& !self.child_top.contains_key(k)
        &&& !self.child_bottom.contains_key(k)
        &&& !self.min_width.contains_key(k)
        &&& !self.min_height.contains_key(k)
        &&& !self.max_width.contains_key(k)
        &&& !self.max_height.contains_key(k)
        &&& !self.border_width.contains_key(k)
        &&& !self.border_radius_top_left.contains_key(k)
        &&& !self.border_radius_top_right.contains_key(k)
        &&& !self.border_radius_bottom_left.contains_key(k)
        &&& !self.border_radius_bottom_right.contains_key(k)
        &&& !self.background_color.contains_key(k)
        &&& !self.font_color.contains_key(k)
        &&& !self.border_color.contains_key(k)
        &&& !self.layout_type.contains_key(k)
        &&& !self.position_type.contains_key(k)
        &&& !self.display.contains_key(k)
        &&& !self.visibility.contains_key(k)
        &&& !self.overflow.contains_key(k)
        &&& !self.cursor.contains_key(k)
        &&& !self.z_order.contains_key(k)
        &&& !self.font_size.contains_key(k)
        &&& !self.font.contains_key(k)
        &&& !self.text.contains_key(k)
        &&& !self.elements.contains_key(k)
        &&& !self.ids.contains_key(k)
        &&& !self.classes.contains_key(k)
        &&& !self.pseudo_classes.contains_key(k)
        &&& !self.abilities.contains_key(k)
        &&& !self.disabled.contains_key(k)
    }

    /// Every per-entity store agrees with `older` at index `k`.
    pub closed spec fn same_at(self, older: Style, k: usize) -> bool {
        &&& self.width.contains_key(k) == older.width.contains_key(k) && (self.width.contains_key(k) ==> self.width.value_of(k) == older.width.value_of(k))
        &&& self.height.contains_key(k) == older.height.contains_key(k) && (self.height.contains_key(k) ==> self.height.value_of(k) == older.height.value_of(k))
        &&& self.left.contains_key(k) == older.left.contains_key(k) && (self.left.contains_key(k) ==> self.left.value_of(k) == older.left.value_of(k))
        &&& self.right.contains_key(k) == older.right.contains_key(k) && (self.right.contains_key(k) ==> self.right.value_of(k) == older.right.value_of(k))
        &&& self.top.contains_key(k) == older.top.contains_key(k) && (self.top.contains_key(k) ==> self.top.value_of(k) == older.top.value_of(k))
        &&& self.bottom.contains_key(k) == older.bottom.contains_key(k) && (self.bottom.contains_key(k) ==> self.bottom.value_of(k) == older.bottom.value_of(k))
        &&& self.child_left.contains_key(k) == older.child_left.contains_key(k) && (self.child_left.contains_key(k) ==> self.child_left.value_of(k) == older.child_left.value_of(k))
        &&& self.child_right.contains_key(k) == older.child_right.contains_key(k) && (self.child_right.contains_key(k) ==> self.child_right.value_of(k) == older.child_right.value_of(k))
        &&& self.child_top.contains_key(k) == older.child_top.contains_key(k) && (self.child_top.contains_key(k) ==> self.child_top.value_of(k) == older.child_top.value_of(k))
        &&& self.child_bottom.contains_key(k) == older.child_bottom.contains_key(k) && (self.child_bottom.contains_key(k) ==> self.child_bottom.value_of(k) == older.child_bottom.value_of(k))
        &&& self.min_width.contains_key(k) == older.min_width.contains_key(k) && (self.min_width.contains_key(k) ==> self.min_width.value_of(k) == older.min_width.value_of(k))
        &&& self.min_height.contains_key(k) == older.min_height.contains_key(k) && (self.min_height.contains_key(k) ==> self.min_height.value_of(k) == older.min_height.value_of(k))
        &&& self.max_width.contains_key(k) == older.max_width.contains_key(k) && (self.max_width.contains_key(k) ==> self.max_width.value_of(k) == older.max_width.value_of(k))
        &&& self.max_height.contains_key(k) == older.max_height.contains_key(k) && (self.max_height.contains_key(k) ==> self.max_height.value_of(k) == older.max_height.value_of(k))
        &&& self.border_width.contains_key(k) == older.border_width.contains_key(k) && (self.border_width.contains_key(k) ==> self.border_width.value_of(k) == older.border_width.value_of(k))
        &&& self.border_radius_top_left.contains_key(k) == older.border_radius_top_left.contains_key(k) && (self.border_radius_top_left.contains_key(k) ==> self.border_radius_top_left.value_of(k) == older.border_radius_top_left.value_of(k))
        &&& self.border_radius_top_right.contains_key(k) == older.border_radius_top_right.contains_key(k) && (self.border_radius_top_right.contains_key(k) ==> self.border_radius_top_right.value_of(k) == older.border_radius_top_right.value_of(k))
        &&& self.border_radius_bottom_left.contains_key(k) == older.border_radius_bottom_left.contains_key(k) && (self.border_radius_bottom_left.contains_key(k) ==> self.border_radius_bottom_left.value_of(k) == older.border_radius_bottom_left.value_of(k))
        &&& self.border_radius_bottom_right.contains_key(k) == older.border_radius_bottom_right.contains_key(k) && (self.border_radius_bottom_right.contains_key(k) ==> self.border_radius_bottom_right.value_of(k) == older.border_radius_bottom_right.value_of(k))
        &&& self.background_color.contains_key(k) == older.background_color.contains_key(k) && (self.background_color.contains_key(k) ==> self.background_color.value_of(k) == older.background_color.value_of(k))
        &&& self.font_color.contains_key(k) == older.font_color.contains_key(k) && (self.font_color.contains_key(k) ==> self.font_color.value_of(k) == older.font_color.value_of(k))
        &&& self.border_color.contains_key(k) == older.border_color.contains_key(k) && (self.border_color.contains_key(k) ==> self.border_color.value_of(k) == older.border_color.value_of(k))
        &&& self.layout_type.contains_key(k) == older.layout_type.contains_key(k) && (self.layout_type.contains_key(k) ==> self.layout_type.value_of(k) == older.layout_type.value_of(k))
        &&& self.position_type.contains_key(k) == older.position_type.contains_key(k) && (self.position_type.contains_key(k) ==> self.position_type.value_of(k) == older.position_type.value_of(k))
        &&& self.display.contains_key(k) == older.display.contains_key(k) && (self.display.contains_key(k) ==> self.display.value_of(k) == older.display.value_of(k))
        &&& self.visibility.contains_key(k) == older.visibility.contains_key(k) && (self.visibility.contains_key(k) ==> self.visibility.value_of(k) == older.visibility.value_of(k))
        &&& self.overflow.contains_key(k) == older.overflow.contains_key(k) && (self.overflow.contains_key(k) ==> self.overflow.value_of(k) == older.overflow.value_of(k))
        &&& self.cursor.contains_key(k) == older.cursor.contains_key(k) && (self.cursor.contains_key(k) ==> self.cursor.value_of(k) == older.cursor.value_of(k))
        &&& self.z_order.contains_key(k) == older.z_order.contains_key(k) && (self.z_order.contains_key(k) ==> self.z_order.value_of(k) == older.z_order.value_of(k))
        &&& self.font_size.contains_key(k) == older.font_size.contains_key(k) && (self.font_size.contains_key(k) ==> self.font_size.value_of(k) == older.font_size.value_of(k))
        &&& self.font.contains_key(k) == older.font.contains_key(k) && (self.font.contains_key(k) ==> self.font.value_of(k) == older.font.value_of(k))
        &&& self.text.contains_key(k) == older.text.contains_key(k) && (self.text.contains_key(k) ==> self.text.value_of(k) == older.text.value_of(k))
        &&& self.elements.contains_key(k) == older.elements.contains_key(k) && (self.elements.contains_key(k) ==> self.elements.value_of(k) == older.elements.value_of(k))
        &&& self.ids.contains_key(k) == older.ids.contains_key(k) && (self.ids.contains_key(k) ==> self.ids.value_of(k) == older.ids.value_of(k))
        &&& self.classes.contains_key(k) == older.classes.contains_key(k) && (self.classes.contains_key(k) ==> self.classes.value_of(k) == older.classes.value_of(k))
        &&& self.pseudo_classes.contains_key(k) == older.pseudo_classes.contains_key(k) && (self.pseudo_classes.contains_key(k) ==> self.pseudo_classes.value_of(k) == older.pseudo_classes.value_of(k))
        &&& self.abilities.contains_key(k) == older.abilities.contains_key(k) && (self.abilities.contains_key(k) ==> self.abilities.value_of(k) == older.abilities.value_of(k))
        &&& self.disabled.contains_key(k) == older.disabled.contains_key(k) && (self.disabled.contains_key(k) ==> self.disabled.value_of(k) == older.disabled.value_of(k))
    }



    /// Agreement at one index is reflexive.
    pub proof fn lemma_same_at_refl(self, k: usize)
        ensures
            self.same_at(self, k),
    {
    }

    /// Agreement at one index composes.
    pub proof fn lemma_same_at_trans(self, mid: Style, older: Style, k: usize)
        requires
            self.same_at(mid, k),
            mid.same_at(older, k),
        ensures
            self.same_at(older, k),
    {
    }

    /// Absence carries across agreement.
    pub proof fn lemma_absent_via_same(self, older: Style, k: usize)
        requires
            self.same_at(older, k),
            older.absent_at(k),
        ensures
            self.absent_at(k),
    {
    }

    /// Agreement at an index is unaffected by the rule list, the dirty flags
    /// and the default font: a style differing from `older` only there agrees
    /// with it at every index.
    pub proof fn lemma_same_at_meta_change(self, older: Style, k: usize)
        requires
            self == (Style {
                rules: self.rules,
                needs_restyle: self.needs_restyle,
                needs_relayout: self.needs_relayout,
                needs_redraw: self.needs_redraw,
                default_font: self.default_font,
                ..older
            }),
        ensures
            self.same_at(older, k),
            older.same_at(self, k),
    {
    }

    /// A purge at `k` makes index `k` absent and leaves every other index as
    /// it was.
    pub proof fn lemma_purged_pointwise(self, older: Style, k: usize)
        requires
            self.purged(older, k),
        ensures
            self.absent_at(k),
            forall|k2: usize| k2 != k ==> #[trigger] self.same_at(older, k2),
    {
        self.width.lemma_as_map_point(k);
        older.width.lemma_as_map_point(k);
        self.height.lemma_as_map_point(k);
        older.height.lemma_as_map_point(k);
        self.left.lemma_as_map_point(k);
        older.left.lemma_as_map_point(k);
        self.right.lemma_as_map_point(k);
        older.right.lemma_as_map_point(k);
        self.top.lemma_as_map_point(k);
        older.top.lemma_as_map_point(k);
        self.bottom.lemma_as_map_point(k);
        older.bottom.lemma_as_map_point(k);
        self.child_left.lemma_as_map_point(k);
        older.child_left.lemma_as_map_point(k);
        self.child_right.lemma_as_map_point(k);
        older.child_right.lemma_as_map_point(k);
        self.child_top.lemma_as_map_point(k);
        older.child_top.lemma_as_map_point(k);
        self.child_bottom.lemma_as_map_point(k);
        older.child_bottom.lemma_as_map_point(k);
        self.min_width.lemma_as_map_point(k);
        older.min_width.lemma_as_map_point(k);
        self.min_height.lemma_as_map_point(k);
        older.min_height.lemma_as_map_point(k);
        self.max_width.lemma_as_map_point(k);
        older.max_width.lemma_as_map_point(k);
        self.max_height.lemma_as_map_point(k);
        older.max_height.lemma_as_map_point(k);
        self.border_width.lemma_as_map_point(k);
        older.border_width.lemma_as_map_point(k);
        self.border_radius_top_left.lemma_as_map_point(k);
        older.border_radius_top_left.lemma_as_map_point(k);
        self.border_radius_top_right.lemma_as_map_point(k);
        older.border_radius_top_right.lemma_as_map_point(k);
        self.border_radius_bottom_left.lemma_as_map_point(k);
        older.border_radius_bottom_left.lemma_as_map_point(k);
        self.border_radius_bottom_right.lemma_as_map_point(k);
        older.border_radius_bottom_right.lemma_as_map_point(k);
        self.background_color.lemma_as_map_point(k);
        older.background_color.lemma_as_map_point(k);
        self.font_color.lemma_as_map_point(k);
        older.font_color.lemma_as_map_point(k);
        self.border_color.lemma_as_map_point(k);
        older.border_color.lemma_as_map_point(k);
        self.layout_type.lemma_as_map_point(k);
        older.layout_type.lemma_as_map_point(k);
        self.position_type.lemma_as_map_point(k);
        older.position_type.lemma_as_map_point(k);
        self.display.lemma_as_map_point(k);
        older.display.lemma_as_map_point(k);
        self.visibility.lemma_as_map_point(k);
        older.visibility.lemma_as_map_point(k);
        self.overflow.lemma_as_map_point(k);
        older.overflow.lemma_as_map_point(k);
        self.cursor.lemma_as_map_point(k);
        older.cursor.lemma_as_map_point(k);
        self.z_order.lemma_as_map_point(k);
        older.z_order.lemma_as_map_point(k);
        self.font_size.lemma_as_map_point(k);
        older.font_size.lemma_as_map_point(k);
        self.font.lemma_as_map_point(k);
        older.font.lemma_as_map_point(k);
        self.text.lemma_as_map_point(k);
        older.text.lemma_as_map_point(k);
        self.elements.lemma_as_map_point(k);
        older.elements.lemma_as_map_point(k);
        self.ids.lemma_as_map_point(k);
        older.ids.lemma_as_map_point(k);
        self.classes.lemma_as_map_point(k);
        older.classes.lemma_as_map_point(k);
        self.pseudo_classes.lemma_as_map_point(k);
        older.pseudo_classes.lemma_as_map_point(k);
        self.abilities.lemma_as_map_point(k);
        older.abilities.lemma_as_map_point(k);
        self.disabled.lemma_as_map_point(k);
        older.disabled.lemma_as_map_point(k);
        assert forall|k2: usize| k2 != k implies #[trigger] self.same_at(older, k2) by {
            self.width.lemma_as_map_point(k2);
            older.width.lemma_as_map_point(k2);
            self.height.lemma_as_map_point(k2);
            older.height.lemma_as_map_point(k2);
            self.left.lemma_as_map_point(k2);
            older.left.lemma_as_map_point(k2);
            self.right.lemma_as_map_point(k2);
            older.right.lemma_as_map_point(k2);
            self.top.lemma_as_map_point(k2);
            older.top.lemma_as_map_point(k2);
            self.bottom.lemma_as_map_point(k2);
            older.bottom.lemma_as_map_point(k2);
            self.child_left.lemma_as_map_point(k2);
            older.child_left.lemma_as_map_point(k2);
            self.child_right.lemma_as_map_point(k2);
            older.child_right.lemma_as_map_point(k2);
            self.child_top.lemma_as_map_point(k2);
            older.child_top.lemma_as_map_point(k2);
            self.child_bottom.lemma_as_map_point(k2);
            older.child_bottom.lemma_as_map_point(k2);
            self.min_width.lemma_as_map_point(k2);
            older.min_width.lemma_as_map_point(k2);
            self.min_height.lemma_as_map_point(k2);
            older.min_height.lemma_as_map_point(k2);
            self.max_width.lemma_as_map_point(k2);
            older.max_width.lemma_as_map_point(k2);
            self.max_height.lemma_as_map_point(k2);
            older.max_height.lemma_as_map_point(k2);
            self.border_width.lemma_as_map_point(k2);
            older.border_width.lemma_as_map_point(k2);
            self.border_radius_top_left.lemma_as_map_point(k2);
            older.border_radius_top_left.lemma_as_map_point(k2);
            self.border_radius_top_right.lemma_as_map_point(k2);
            older.border_radius_top_right.lemma_as_map_point(k2);
            self.border_radius_bottom_left.lemma_as_map_point(k2);
            older.border_radius_bottom_left.lemma_as_map_point(k2);
            self.border_radius_bottom_right.lemma_as_map_point(k2);
            older.border_radius_bottom_right.lemma_as_map_point(k2);
            self.background_color.lemma_as_map_point(k2);
            older.background_color.lemma_as_map_point(k2);
            self.font_color.lemma_as_map_point(k2);
            older.font_color.lemma_as_map_point(k2);
            self.border_color.lemma_as_map_point(k2);
            older.border_color.lemma_as_map_point(k2);
            self.layout_type.lemma_as_map_point(k2);
            older.layout_type.lemma_as_map_point(k2);
            self.position_type.lemma_as_map_point(k2);
            older.position_type.lemma_as_map_point(k2);
            self.display.lemma_as_map_point(k2);
            older.display.lemma_as_map_point(k2);
            self.visibility.lemma_as_map_point(k2);
            older.visibility.lemma_as_map_point(k2);
            self.overflow.lemma_as_map_point(k2);
            older.overflow.lemma_as_map_point(k2);
            self.cursor.lemma_as_map_point(k2);
            older.cursor.lemma_as_map_point(k2);
            self.z_order.lemma_as_map_point(k2);
            older.z_order.lemma_as_map_point(k2);
            self.font_size.lemma_as_map_point(k2);
            older.font_size.lemma_as_map_point(k2);
            self.font.lemma_as_map_point(k2);
            older.font.lemma_as_map_point(k2);
            self.text.lemma_as_map_point(k2);
            older.text.lemma_as_map_point(k2);
            self.elements.lemma_as_map_point(k2);
            older.elements.lemma_as_map_point(k2);
            self.ids.lemma_as_map_point(k2);
            older.ids.lemma_as_map_point(k2);
            self.classes.lemma_as_map_point(k2);
            older.classes.lemma_as_map_point(k2);
            self.pseudo_classes.lemma_as_map_point(k2);
            older.pseudo_classes.lemma_as_map_point(k2);
            self.abilities.lemma_as_map_point(k2);
            older.abilities.lemma_as_map_point(k2);
            self.disabled.lemma_as_map_point(k2);
            older.disabled.lemma_as_map_point(k2);
        }
    }

    /// Are the sheet-independent parts (rules, flags, fonts) unchanged?
    pub open spec fn same_meta(self, older: Style) -> bool {
        &&& self.rules == older.rules
        &&& self.needs_restyle == older.needs_restyle
        &&& self.needs_relayout == older.needs_relayout
        &&& self.needs_redraw == older.needs_redraw
        &&& self.default_font == older.default_font
    }

    /// Registers an entity: an empty class list, no pseudo-class state, and
    /// the default abilities.  Everything else stays absent, meaning default.
    pub fn add(&mut self, e: Entity)
        requires
            old(self).wf(),
            e.spec_index() != SPARSE_NULL,
        ensures
            final(self).wf(),
            final(self).same_meta(*old(self)),
            final(self).classes.as_map().remove(e.spec_index() as usize) == old(
                self).classes.as_map().remove(e.spec_index() as usize),
            final(self).classes.contains_key(e.spec_index() as usize),
            final(self).classes.value_of(e.spec_index() as usize)@ == Seq::<String>::empty(),
            final(self).pseudo_classes.as_map() == old(self).pseudo_classes.as_map().insert(
                e.spec_index() as usize, 0u32),
            final(self).abilities.as_map() == old(self).abilities.as_map().insert(
                e.spec_index() as usize, ABILITY_HOVERABLE),
            final(self).width == old(self).width,
            final(self).height == old(self).height,
            final(self).left == old(self).left,
            final(self).right == old(self).right,
            final(self).top == old(self).top,
            final(self).bottom == old(self).bottom,
            final(self).child_left == old(self).child_left,
            final(self).child_right == old(self).child_right,
            final(self).child_top == old(self).child_top,
            final(self).child_bottom == old(self).child_bottom,
            final(self).min_width == old(self).min_width,
            final(self).min_height == old(self).min_height,
            final(self).max_width == old(self).max_width,
            final(self).max_height == old(self).max_height,
            final(self).border_width == old(self).border_width,
            final(self).border_radius_top_left == old(self).border_radius_top_left,
            final(self).border_radius_top_right == old(self).border_radius_top_right,
            final(self).border_radius_bottom_left == old(self).border_radius_bottom_left,
            final(self).border_radius_bottom_right == old(self).border_radius_bottom_right,
            final(self).background_color == old(self).background_color,
            final(self).font_color == old(self).font_color,
            final(self).border_color == old(self).border_color,
            final(self).layout_type == old(self).layout_type,
            final(self).position_type == old(self).position_type,
            final(self).display == old(self).display,
            final(self).visibility == old(self).visibility,
            final(self).overflow == old(self).overflow,
            final(self).cursor == old(self).cursor,
            final(self).z_order == old(self).z_order,
            final(self).font_size == old(self).font_size,
            final(self).font == old(self).font,
            final(self).text == old(self).text,
            final(self).elements == old(self).elements,
            final(self).ids == old(self).ids,
            final(self).disabled == old(self).disabled,
    {
        let idx = e.index();
        let empty_classes: Vec<String> = Vec::new();
        let r1 = self.classes.insert(idx, empty_classes);
        let r2 = self.pseudo_classes.insert(idx, 0);
        let r3 = self.abilities.insert(idx, ABILITY_HOVERABLE);
        proof {
            assert(r1 is Ok && r2 is Ok && r3 is Ok);
            assert(self.classes.as_map().remove(e.spec_index() as usize) =~= old(
                self).classes.as_map().remove(e.spec_index() as usize));
            let k = e.spec_index() as usize;
            assert(self.classes.contains_key(k));
            assert(self.classes.as_map().dom().contains(k));
            assert(self.classes.as_map()[k] == self.classes.value_of(k));
            assert(self.classes.value_of(k)@ =~= Seq::<String>::empty());
        }
    }

    /// Purges an entity from every per-entity store.
    pub fn remove(&mut self, e: Entity)
        requires
            old(self).wf(),
        ensures
            final(self).wf(),
            final(self).same_meta(*old(self)),
            final(self).purged(*old(self), e.spec_index() as usize),
    {
        let idx = e.index();
        let _ = self.width.remove(idx);
        let _ = self.height.remove(idx);
        let _ = self.left.remove(idx);
        let _ = self.right.remove(idx);
        let _ = self.top.remove(idx);
        let _ = self.bottom.remove(idx);
        let _ = self.child_left.remove(idx);
        let _ = self.child_right.remove(idx);
        let _ = self.child_top.remove(idx);
        let _ = self.child_bottom.remove(idx);
        let _ = self.min_width.remove(idx);
        let _ = self.min_height.remove(idx);
        let _ = self.max_width.remove(idx);
        let _ = self.max_height.remove(idx);
        let _ = self.border_width.remove(idx);
        let _ = self.border_radius_top_left.remove(idx);
        let _ = self.border_radius_top_right.remove(idx);
        let _ = self.border_radius_bottom_left.remove(idx);
        let _ = self.border_radius_bottom_right.remove(idx);
        let _ = self.background_color.remove(idx);
        let _ = self.font_color.remove(idx);
        let _ = self.border_color.remove(idx);
        let _ = self.layout_type.remove(idx);
        let _ = self.position_type.remove(idx);
        let _ = self.display.remove(idx);
        let _ = self.visibility.remove(idx);
        let _ = self.overflow.remove(idx);
        let _ = self.cursor.remove(idx);
        let _ = self.z_order.remove(idx);
        let _ = self.font_size.remove(idx);
        let _ = self.font.remove(idx);
        let _ = self.text.remove(idx);
        let _ = self.elements.remove(idx);
        let _ = self.ids.remove(idx);
        let _ = self.classes.remove(idx);
        let _ = self.pseudo_classes.remove(idx);
        let _ = self.abilities.remove(idx);
        let _ = self.disabled.remove(idx);
    }
}

/// The per-entity data selector matching reads: element names, ids, class
/// lists and pseudo-class state.
pub struct MatchEnv {
    pub elements: Map<usize, String>,
    pub ids: Map<usize, String>,
    pub classes: Map<usize, Vec<String>>,
    pub pseudo_classes: Map<usize, u32>,
}

/// The classes of entity index `k`; none when the entity has no entry.
pub open spec fn env_classes(env: MatchEnv, k: usize) -> Seq<String> {
    if env.classes.dom().contains(k) {
        env.classes[k]@
    } else {
        Seq::<String>::empty()
    }
}

/// The pseudo-class bits of entity index `k`; zero when absent.
pub open spec fn env_pseudo(env: MatchEnv, k: usize) -> u32 {
    if env.pseudo_classes.dom().contains(k) {
        env.pseudo_classes[k]
    } else {
        0u32
    }
}

/// Does the class list `cl` hold the class named `c`?
pub open spec fn class_present(cl: Seq<String>, c: Seq<char>) -> bool {
    exists|t: int| 0 <= t < cl.len() && cl[t]@ == c
}

/// Does one simple selector match the entity at index `k`: element name and
/// id equal where demanded, every selector class present, and every demanded
/// pseudo-class bit set?
pub open spec fn sel_matches(env: MatchEnv, k: usize, s: Selector) -> bool {
    &&& match s.element {
        Some(n) => env.elements.dom().contains(k) && env.elements[k]@ == n@,
        None => true,
    }
    &&& match s.id {
        Some(n) => env.ids.dom().contains(k) && env.ids[k]@ == n@,
        None => true,
    }
    &&& forall|j: int|
        0 <= j < s.classes@.len() ==> class_present(env_classes(env, k), (#[trigger] s.classes@[j])@)
    &&& spec_has_bits(env_pseudo(env, k), s.pseudo_classes)
}

/// The start of the selector chain that ends at position `i`: walk left while
/// the preceding selector links on (its relation is not `End`).
pub open spec fn chain_start_from(sels: Seq<Selector>, i: int) -> int
    decreases i,
{
    if i <= 0 {
        0
    } else if sels[i - 1].relation != SelectorRelation::End {
        chain_start_from(sels, i - 1)
    } else {
        i
    }
}

pub proof fn lemma_chain_start_bounds(sels: Seq<Selector>, i: int)
    requires
        i >= 0,
    ensures
        0 <= chain_start_from(sels, i) <= i,
    decreases i,
{
    if i > 0 && sels[i - 1].relation != SelectorRelation::End {
        lemma_chain_start_bounds(sels, i - 1);
    }
}

/// Depth used as a termination measure while matching walks up the tree.
pub open spec fn depth_guard(tree: Tree, e: Entity) -> int {
    if tree.contains(e) {
        tree.depth_of(e)
    } else {
        0
    }
}

/// Does the selector list (comma-separated alternatives of chains) match
/// entity `e`?  Exactly one of the alternatives has to match.
pub open spec fn sels_match(env: MatchEnv, tree: Tree, e: Entity, sels: Seq<Selector>) -> bool
    decreases sels.len(), depth_guard(tree, e), 3int,
    when tree.wf()
    via sels_match_decreases
{
    if sels.len() == 0 {
        false
    } else {
        let c = chain_start_from(sels, sels.len() - 1);
        ||| chain_match(env, tree, e, sels.subrange(c, sels.len() as int))
        ||| sels_match(env, tree, e, sels.take(c))
    }
}

#[via_fn]
proof fn sels_match_decreases(env: MatchEnv, tree: Tree, e: Entity, sels: Seq<Selector>) {
    if sels.len() > 0 {
        lemma_chain_start_bounds(sels, sels.len() - 1);
    }
}

/// Does one chain match `e`: its last selector matches `e` itself, and the
/// links before it match up the ancestor line.
pub open spec fn chain_match(env: MatchEnv, tree: Tree, e: Entity, chain: Seq<Selector>) -> bool
    decreases chain.len(), depth_guard(tree, e), 2int,
    when tree.wf()
{
    if chain.len() == 0 {
        false
    } else if !sel_matches(env, e.index, chain.last()) {
        false
    } else {
        rel_match(env, tree, chain.drop_last(), e)
    }
}

/// `rest` is the part of a chain above an entity that already matched at `e`.
/// Its last selector relates to `e`'s ancestors according to its relation:
/// `Parent` binds the direct parent, `Ancestor` the nearest matching strict
/// ancestor.
pub open spec fn rel_match(env: MatchEnv, tree: Tree, rest: Seq<Selector>, e: Entity) -> bool
    decreases rest.len(), depth_guard(tree, e), 1int,
    when tree.wf()
{
    if rest.len() == 0 {
        true
    } else if !tree.contains(e) || e == Entity::spec_root() {
        false
    } else {
        match rest.last().relation {
            SelectorRelation::Parent => sel_matches(env, tree.parent_of(e).index, rest.last())
                && rel_match(env, tree, rest.drop_last(), tree.parent_of(e)),
            SelectorRelation::Ancestor => anc_match(env, tree, rest, e),
            SelectorRelation::End => false,
        }
    }
}

/// Walks up from `e` to the nearest strict ancestor matching the last
/// selector of `rest`, then continues the chain from there.  The choice is
/// deliberately greedy: the nearest matching ancestor binds and the walk
/// never backtracks to a farther one, so on chains of three or more
/// selectors a farther ancestor that would let the rest of the chain match
/// is not considered.
pub open spec fn anc_match(env: MatchEnv, tree: Tree, rest: Seq<Selector>, e: Entity) -> bool
    decreases rest.len(), depth_guard(tree, e), 0int,
    when tree.wf() && rest.len() > 0
{
    if !tree.contains(e) || e == Entity::spec_root() {
        false
    } else if sel_matches(env, tree.parent_of(e).index, rest.last()) {
        rel_match(env, tree, rest.drop_last(), tree.parent_of(e))
    } else {
        anc_match(env, tree, rest, tree.parent_of(e))
    }
}

/// Does the whole rule match `e`?
pub open spec fn rule_matches_spec(env: MatchEnv, tree: Tree, e: Entity, r: StyleRule) -> bool {
    sels_match(env, tree, e, r.selectors@)
}

/// One declaration folded into the property maps: the stores it names are
/// overwritten at index `k`; declarations without a store are kept only in
/// the rule.
pub open spec fn apply_prop(m: StyleMaps, k: usize, p: Property) -> StyleMaps {
    match p {
            Property::Left(v) => StyleMaps { left: m.left.insert(k, v), ..m },
            Property::Right(v) => StyleMaps { right: m.right.insert(k, v), ..m },
            Property::Top(v) => StyleMaps { top: m.top.insert(k, v), ..m },
            Property::Bottom(v) => StyleMaps { bottom: m.bottom.insert(k, v), ..m },
            Property::Space(v) => StyleMaps { left: m.left.insert(k, v), right: m.right.insert(k, v), top: m.top.insert(k, v), bottom: m.bottom.insert(k, v), ..m },
            Property::Width(v) => StyleMaps { width: m.width.insert(k, v), ..m },
            Property::Height(v) => StyleMaps { height: m.height.insert(k, v), ..m },
            Property::MinWidth(v) => StyleMaps { min_width: m.min_width.insert(k, v), ..m },
            Property::MinHeight(v) => StyleMaps { min_height: m.min_height.insert(k, v), ..m },
            Property::MaxWidth(v) => StyleMaps { max_width: m.max_width.insert(k, v), ..m },
            Property::MaxHeight(v) => StyleMaps { max_height: m.max_height.insert(k, v), ..m },
            Property::ChildSpace(v) => StyleMaps { child_left: m.child_left.insert(k, v), child_right: m.child_right.insert(k, v), child_top: m.child_top.insert(k, v), child_bottom: m.child_bottom.insert(k, v), ..m },
            Property::ChildLeft(v) => StyleMaps { child_left: m.child_left.insert(k, v), ..m },
            Property::ChildRight(v) => StyleMaps { child_right: m.child_right.insert(k, v), ..m },
            Property::ChildTop(v) => StyleMaps { child_top: m.child_top.insert(k, v), ..m },
            Property::ChildBottom(v) => StyleMaps { child_bottom: m.child_bottom.insert(k, v), ..m },
            Property::BorderWidth(v) => StyleMaps { border_width: m.border_width.insert(k, v), ..m },
            Property::BorderRadius(v) => StyleMaps { border_radius_top_left: m.border_radius_top_left.insert(k, v), border_radius_top_right: m.border_radius_top_right.insert(k, v), border_radius_bottom_left: m.border_radius_bottom_left.insert(k, v), border_radius_bottom_right: m.border_radius_bottom_right.insert(k, v), ..m },
            Property::BorderTopLeftRadius(v) => StyleMaps { border_radius_top_left: m.border_radius_top_left.insert(k, v), ..m },
            Property::BorderTopRightRadius(v) => StyleMaps { border_radius_top_right: m.border_radius_top_right.insert(k, v), ..m },
            Property::BorderBottomLeftRadius(v) => StyleMaps { border_radius_bottom_left: m.border_radius_bottom_left.insert(k, v), ..m },
            Property::BorderBottomRightRadius(v) => StyleMaps { border_radius_bottom_right: m.border_radius_bottom_right.insert(k, v), ..m },
            Property::BackgroundColor(v) => StyleMaps { background_color: m.background_color.insert(k, v), ..m },
            Property::FontColor(v) => StyleMaps { font_color: m.font_color.insert(k, v), ..m },
            Property::BorderColor(v) => StyleMaps { border_color: m.border_color.insert(k, v), ..m },
            Property::PositionType(v) => StyleMaps { position_type: m.position_type.insert(k, v), ..m },
            Property::LayoutType(v) => StyleMaps { layout_type: m.layout_type.insert(k, v), ..m },
            Property::Display(v) => StyleMaps { display: m.display.insert(k, v), ..m },
            Property::Visibility(v) => StyleMaps { visibility: m.visibility.insert(k, v), ..m },
            Property::Overflow(v) => StyleMaps { overflow: m.overflow.insert(k, v), ..m },
            Property::Cursor(v) => StyleMaps { cursor: m.cursor.insert(k, v), ..m },
            Property::ZIndex(v) => StyleMaps { z_order: m.z_order.insert(k, v), ..m },
            Property::FontSize(v) => StyleMaps { font_size: m.font_size.insert(k, v), ..m },
            _ => m,
    }
}

/// The first `n` declarations folded in order.
pub open spec fn apply_props(m: StyleMaps, k: usize, props: Seq<Property>, n: int) -> StyleMaps
    decreases n,
{
    if n <= 0 {
        m
    } else {
        apply_prop(apply_props(m, k, props, n - 1), k, props[n - 1])
    }
}

/// The first `n` rules cascaded onto entity `e`: each matching rule's
/// declarations are folded in source order, so the last write wins.
pub open spec fn cascade_maps(
    env: MatchEnv,
    tree: Tree,
    e: Entity,
    m: StyleMaps,
    rules: Seq<StyleRule>,
    n: int,
) -> StyleMaps
    decreases n,
{
    if n <= 0 {
        m
    } else {
        let m2 = cascade_maps(env, tree, e, m, rules, n - 1);
        if rule_matches_spec(env, tree, e, rules[n - 1]) {
            apply_props(m2, e.index, rules[n - 1].properties@, rules[n - 1].properties@.len() as int)
        } else {
            m2
        }
    }
}

/// The cascade re-run over the first `n` tree slots, in slot order: the
/// entity of each occupied slot has every matching rule's declarations
/// folded in, exactly as [`Style::restyle_entity`] states for one entity.
pub open spec fn restyle_all(
    env: MatchEnv,
    tree: Tree,
    m: StyleMaps,
    rules: Seq<StyleRule>,
    n: int,
) -> StyleMaps
    decreases n,
{
    if n <= 0 {
        m
    } else {
        let m2 = restyle_all(env, tree, m, rules, n - 1);
        match tree.slots@[n - 1] {
            Some(node) => cascade_maps(env, tree, node.entity, m2, rules, rules.len() as int),
            None => m2,
        }
    }
}

impl Style {
    /// The matching-relevant state as one value.
    pub open spec fn match_env(self) -> MatchEnv {
        MatchEnv {
            elements: self.elements.as_map(),
            ids: self.ids.as_map(),
            classes: self.classes.as_map(),
            pseudo_classes: self.pseudo_classes.as_map(),
        }
    }

    /// Decides whether one simple selector matches the entity at index `k`.
    pub fn selector_matches(&self, k: usize, s: &Selector) -> (r: bool)
        requires
            self.wf(),
        ensures
            r == sel_matches(self.match_env(), k, *s),
    {
        match &s.element {
            Some(n) => {
                match self.elements.get(k) {
                    Some(en) => {
                        let ea: &str = en;
                        let na: &str = n;
                        if !str_eq(ea, na) {
                            return false;
                        }
                    },
                    None => {
                        proof {
                            assert(!self.match_env().elements.dom().contains(k));
                        }
                        return false;
                    },
                }
            },
            None => {},
        }
        match &s.id {
            Some(n) => {
                match self.ids.get(k) {
                    Some(en) => {
                        let ea: &str = en;
                        let na: &str = n;
                        if !str_eq(ea, na) {
                            return false;
                        }
                    },
                    None => {
                        proof {
                            assert(!self.match_env().ids.dom().contains(k));
                        }
                        return false;
                    },
                }
            },
            None => {},
        }
        let nsel = s.classes.len();
        let mut j: usize = 0;
        while j < nsel
            invariant
                self.wf(),
                nsel == s.classes@.len(),
                j <= nsel,
                forall|jj: int|
                    0 <= jj < j ==> class_present(env_classes(self.match_env(), k), (
                    #[trigger] s.classes@[jj])@),
            decreases nsel - j,
        {
            let want = &s.classes[j];
            let mut found = false;
            match self.classes.get(k) {
                Some(cl) => {
                    let ncl = cl.len();
                    let mut t: usize = 0;
                    while t < ncl
                        invariant
                            ncl == cl@.len(),
                            t <= ncl,
                            found == exists|tt: int| 0 <= tt < t && cl@[tt]@ == want@,
                        decreases ncl - t,
                    {
                        let ca: &str = &cl[t];
                        let wa: &str = want;
                        if str_eq(ca, wa) {
                            found = true;
                        }
                        t += 1;
                    }
                    proof {
                        assert(cl@ == env_classes(self.match_env(), k));
                    }
                },
                None => {
                    proof {
                        assert(env_classes(self.match_env(), k) =~= Seq::<String>::empty());
                    }
                },
            }
            if !found {
                proof {
                    assert(!class_present(env_classes(self.match_env(), k), s.classes@[j as int]@));
                }
                return false;
            }
            j += 1;
        }
        let pc = match self.pseudo_classes.get(k) {
            Some(p) => *p,
            None => 0,
        };
        proof {
            assert(pc == env_pseudo(self.match_env(), k));
        }
        has_bits(pc, s.pseudo_classes)
    }

    /// Decides [`sels_match`] on the prefix `sels[..hi]`.
    pub fn sels_match_upto(&self, tree: &Tree, e: Entity, sels: &Vec<Selector>, hi: usize) -> (r:
        bool)
        requires
            self.wf(),
            tree.wf(),
            hi <= sels@.len(),
        ensures
            r == sels_match(self.match_env(), *tree, e, sels@.take(hi as int)),
        decreases hi,
    {
        if hi == 0 {
            return false;
        }
        let mut c: usize = hi - 1;
        while c > 0 && !(sels[c - 1].relation == SelectorRelation::End)
            invariant
                hi <= sels@.len(),
                c <= hi - 1,
                chain_start_from(sels@.take(hi as int), hi - 1) == chain_start_from(
                    sels@.take(hi as int), c as int),
            decreases c,
        {
            c -= 1;
        }
        proof {
            assert(chain_start_from(sels@.take(hi as int), hi - 1) == c);
            lemma_chain_start_bounds(sels@.take(hi as int), hi - 1);
        }
        if self.chain_match_window(tree, e, sels, c, hi) {
            proof {
                assert(sels@.take(hi as int).subrange(c as int, hi as int) =~= sels@.subrange(
                    c as int, hi as int));
            }
            true
        } else {
            let r = self.sels_match_upto(tree, e, sels, c);
            proof {
                assert(sels@.take(hi as int).subrange(c as int, hi as int) =~= sels@.subrange(
                    c as int, hi as int));
                assert(sels@.take(hi as int).take(c as int) =~= sels@.take(c as int));
            }
            r
        }
    }

    /// Decides [`chain_match`] on the window `sels[lo..hi]`.
    pub fn chain_match_window(
        &self,
        tree: &Tree,
        e: Entity,
        sels: &Vec<Selector>,
        lo: usize,
        hi: usize,
    ) -> (r: bool)
        requires
            self.wf(),
            tree.wf(),
            lo < hi <= sels@.len(),
        ensures
            r == chain_match(self.match_env(), *tree, e, sels@.subrange(lo as int, hi as int)),
    {
        proof {
            assert(sels@.subrange(lo as int, hi as int).last() == sels@[hi - 1]);
            assert(sels@.subrange(lo as int, hi as int).drop_last() =~= sels@.subrange(
                lo as int, hi - 1));
        }
        if !self.selector_matches(e.index(), &sels[hi - 1]) {
            return false;
        }
        self.rel_match_window(tree, sels, lo, hi - 1, e)
    }

    /// Decides [`rel_match`] on the window `sels[lo..hi]`.
    pub fn rel_match_window(
        &self,
        tree: &Tree,
        sels: &Vec<Selector>,
        lo: usize,
        hi: usize,
        e: Entity,
    ) -> (r: bool)
        requires
            self.wf(),
            tree.wf(),
            lo <= hi <= sels@.len(),
        ensures
            r == rel_match(self.match_env(), *tree, sels@.subrange(lo as int, hi as int), e),
        decreases hi - lo, depth_guard(*tree, e), 1int,
    {
        if hi == lo {
            return true;
        }
        if !tree.contains_entity(e) {
            return false;
        }
        if e.index() == 0 {
            proof {
                assert(e == Entity::spec_root());
            }
            return false;
        }
        proof {
            assert(e != Entity::spec_root());
            assert(sels@.subrange(lo as int, hi as int).last() == sels@[hi - 1]);
            assert(sels@.subrange(lo as int, hi as int).drop_last() =~= sels@.subrange(
                lo as int, hi - 1));
        }
        let p = match &tree.slots[e.index()] {
            Some(node) => node.parent,
            None => Entity::null(),
        };
        proof {
            assert(p == tree.parent_of(e));
        }
        match sels[hi - 1].relation {
            SelectorRelation::Parent => {
                if self.selector_matches(p.index(), &sels[hi - 1]) {
                    self.rel_match_window(tree, sels, lo, hi - 1, p)
                } else {
                    false
                }
            },
            SelectorRelation::Ancestor => self.anc_match_window(tree, sels, lo, hi, e),
            SelectorRelation::End => false,
        }
    }

    /// Decides [`anc_match`] on the window `sels[lo..hi]`.
    pub fn anc_match_window(
        &self,
        tree: &Tree,
        sels: &Vec<Selector>,
        lo: usize,
        hi: usize,
        e: Entity,
    ) -> (r: bool)
        requires
            self.wf(),
            tree.wf(),
            lo < hi <= sels@.len(),
        ensures
            r == anc_match(self.match_env(), *tree, sels@.subrange(lo as int, hi as int), e),
        decreases hi - lo, depth_guard(*tree, e), 0int,
    {
        if !tree.contains_entity(e) {
            return false;
        }
        if e.index() == 0 {
            proof {
                assert(e == Entity::spec_root());
            }
            return false;
        }
        proof {
            assert(e != Entity::spec_root());
            assert(sels@.subrange(lo as int, hi as int).last() == sels@[hi - 1]);
            assert(sels@.subrange(lo as int, hi as int).drop_last() =~= sels@.subrange(
                lo as int, hi - 1));
        }
        let p = match &tree.slots[e.index()] {
            Some(node) => node.parent,
            None => Entity::null(),
        };
        proof {
            assert(p == tree.parent_of(e));
        }
        if self.selector_matches(p.index(), &sels[hi - 1]) {
            self.rel_match_window(tree, sels, lo, hi - 1, p)
        } else {
            self.anc_match_window(tree, sels, lo, hi, p)
        }
    }

    /// Does `rule` match entity `e`?
    pub fn rule_matches(&self, tree: &Tree, e: Entity, rule: &StyleRule) -> (r: bool)
        requires
            self.wf(),
            tree.wf(),
        ensures
            r == rule_matches_spec(self.match_env(), *tree, e, *rule),
    {
        let n = rule.selectors.len();
        let r = self.sels_match_upto(tree, e, &rule.selectors, n);
        proof {
            assert(rule.selectors@.take(n as int) =~= rule.selectors@);
        }
        r
    }

    /// Writes one declaration into the stores it names.
    pub fn apply_property(&mut self, k: usize, p: &Property)
        requires
            old(self).wf(),
            k != SPARSE_NULL,
        ensures
            final(self).wf(),
            final(self).maps() == apply_prop(old(self).maps(), k, *p),
            final(self).match_env() == old(self).match_env(),
            final(self).same_meta(*old(self)),
    {
        match p {
                Property::Left(v) => {
            let _ = self.left.insert(k, *v);
        },
                Property::Right(v) => {
            let _ = self.right.insert(k, *v);
        },
                Property::Top(v) => {
            let _ = self.top.insert(k, *v);
        },
                Property::Bottom(v) => {
            let _ = self.bottom.insert(k, *v);
        },
                Property::Space(v) => {
            let _ = self.left.insert(k, *v);
            let _ = self.right.insert(k, *v);
            let _ = self.top.insert(k, *v);
            let _ = self.bottom.insert(k, *v);
        },
                Property::Width(v) => {
            let _ = self.width.insert(k, *v);
        },
                Property::Height(v) => {
            let _ = self.height.insert(k, *v);
        },
                Property::MinWidth(v) => {
            let _ = self.min_width.insert(k, *v);
        },
                Property::MinHeight(v) => {
            let _ = self.min_height.insert(k, *v);
        },
                Property::MaxWidth(v) => {
            let _ = self.max_width.insert(k, *v);
        },
                Property::MaxHeight(v) => {
            let _ = self.max_height.insert(k, *v);
        },
                Property::ChildSpace(v) => {
            let _ = self.child_left.insert(k, *v);
            let _ = self.child_right.insert(k, *v);
            let _ = self.child_top.insert(k, *v);
            let _ = self.child_bottom.insert(k, *v);
        },
                Property::ChildLeft(v) => {
            let _ = self.child_left.insert(k, *v);
        },
                Property::ChildRight(v) => {
            let _ = self.child_right.insert(k, *v);
        },
                Property::ChildTop(v) => {
            let _ = self.child_top.insert(k, *v);
        },
                Property::ChildBottom(v) => {
            let _ = self.child_bottom.insert(k, *v);
        },
                Property::BorderWidth(v) => {
            let _ = self.border_width.insert(k, *v);
        },
                Property::BorderRadius(v) => {
            let _ = self.border_radius_top_left.insert(k, *v);
            let _ = self.border_radius_top_right.insert(k, *v);
            let _ = self.border_radius_bottom_left.insert(k, *v);
            let _ = self.border_radius_bottom_right.insert(k, *v);
        },
                Property::BorderTopLeftRadius(v) => {
            let _ = self.border_radius_top_left.insert(k, *v);
        },
                Property::BorderTopRightRadius(v) => {
            let _ = self.border_radius_top_right.insert(k, *v);
        },
                Property::BorderBottomLeftRadius(v) => {
            let _ = self.border_radius_bottom_left.insert(k, *v);
        },
                Property::BorderBottomRightRadius(v) => {
            let _ = self.border_radius_bottom_right.insert(k, *v);
        },
                Property::BackgroundColor(v) => {
            let _ = self.background_color.insert(k, *v);
        },
                Property::FontColor(v) => {
            let _ = self.font_color.insert(k, *v);
        },
                Property::BorderColor(v) => {
            let _ = self.border_color.insert(k, *v);
        },
                Property::PositionType(v) => {
            let _ = self.position_type.insert(k, *v);
        },
                Property::LayoutType(v) => {
            let _ = self.layout_type.insert(k, *v);
        },
                Property::Display(v) => {
            let _ = self.display.insert(k, *v);
        },
                Property::Visibility(v) => {
            let _ = self.visibility.insert(k, *v);
        },
                Property::Overflow(v) => {
            let _ = self.overflow.insert(k, *v);
        },
                Property::Cursor(v) => {
            let _ = self.cursor.insert(k, *v);
        },
                Property::ZIndex(v) => {
            let _ = self.z_order.insert(k, *v);
        },
                Property::FontSize(v) => {
            let _ = self.font_size.insert(k, *v);
        },
                _ => {},
        }
        proof {
            assert(self.maps() =~= apply_prop(old(self).maps(), k, *p));
        }
    }

    /// Writes a rule's declarations in source order.
    pub fn apply_rule_properties(&mut self, k: usize, props: &Vec<Property>)
        requires
            old(self).wf(),
            k != SPARSE_NULL,
        ensures
            final(self).wf(),
            final(self).maps() == apply_props(old(self).maps(), k, props@, props@.len() as int),
            final(self).match_env() == old(self).match_env(),
            final(self).same_meta(*old(self)),
    {
        let n = props.len();
        let mut j: usize = 0;
        while j < n
            invariant
                self.wf(),
                k != SPARSE_NULL,
                n == props@.len(),
                j <= n,
                self.maps() == apply_props(old(self).maps(), k, props@, j as int),
                self.match_env() == old(self).match_env(),
                self.same_meta(*old(self)),
            decreases n - j,
        {
            self.apply_property(k, &props[j]);
            j += 1;
        }
    }

    /// Re-runs the cascade for one entity: every rule whose selectors match,
    /// in source order, writes its declarations, the last write winning.
    pub fn restyle_entity(&mut self, tree: &Tree, e: Entity)
        requires
            old(self).wf(),
            tree.wf(),
            e.spec_index() != SPARSE_NULL,
        ensures
            final(self).wf(),
            final(self).maps() == cascade_maps(
                old(self).match_env(),
                *tree,
                e,
                old(self).maps(),
                old(self).rules@,
                old(self).rules@.len() as int,
            ),
            final(self).match_env() == old(self).match_env(),
            final(self).same_meta(*old(self)),
    {
        let mut rules: Vec<StyleRule> = Vec::new();
        core::mem::swap(&mut rules, &mut self.rules);
        let n = rules.len();
        let mut i: usize = 0;
        while i < n
            invariant
                self.wf(),
                tree.wf(),
                e.spec_index() != SPARSE_NULL,
                n == rules@.len(),
                i <= n,
                rules@ == old(self).rules@,
                self.rules@.len() == 0,
                self.maps() == cascade_maps(
                    old(self).match_env(),
                    *tree,
                    e,
                    old(self).maps(),
                    rules@,
                    i as int,
                ),
                self.match_env() == old(self).match_env(),
                self.needs_restyle == old(self).needs_restyle,
                self.needs_relayout == old(self).needs_relayout,
                self.needs_redraw == old(self).needs_redraw,
                self.default_font == old(self).default_font,
            decreases n - i,
        {
            if self.rule_matches(tree, e, &rules[i]) {
                self.apply_rule_properties(e.index(), &rules[i].properties);
            }
            i += 1;
        }
        core::mem::swap(&mut rules, &mut self.rules);
    }

    /// Parses a theme text and appends its rules, reporting the errors of
    /// malformed parts without aborting the sheet.  Marks the cascade dirty.
    /// The appended rules and the reported errors are exactly the parse of
    /// the theme text, ids continuing after the existing rules.
    pub fn parse_theme(&mut self, text: &str) -> (errors: Vec<crate::parser::CustomParseError>)
        requires
            old(self).wf(),
            old(self).rules@.len() <= 1000000000,
        ensures
            final(self).wf(),
            final(self).needs_restyle,
            old(self).rules@.len() <= final(self).rules@.len() <= old(self).rules@.len()
                + 1000000000,
            final(self).rules@.take(old(self).rules@.len() as int) == old(self).rules@,
            final(self).match_env() == old(self).match_env(),
            final(self).maps() == old(self).maps(),
            final(self).needs_relayout == old(self).needs_relayout,
            final(self).needs_redraw == old(self).needs_redraw,
            final(self).default_font == old(self).default_font,
            exists|toks: Seq<crate::parser::Token>|
                #![auto]
                toks.map_values(|t: crate::parser::Token| crate::parser::tok_view(t))
                    == crate::parser::spec_tokenize(text@) && crate::parser::spec_parse_rules(
                    toks,
                    old(self).rules@.len() as int,
                ) == (
                    final(self).rules@.skip(old(self).rules@.len() as int).map_values(
                        |r: StyleRule| crate::parser::rule_view(r),
                    ),
                    errors@.map_values(
                        |e: crate::parser::CustomParseError| crate::parser::err_view(e),
                    ),
                ),
    {
        let mut errors: Vec<crate::parser::CustomParseError> = Vec::new();
        let first = self.rules.len();
        let new_rules = crate::parser::parse_rules(text, first, &mut errors);
        let n = new_rules.len();
        let ghost rules0 = self.rules@;
        let ghost newseq = new_rules@;
        let mut new_rules = new_rules;
        let mut j: usize = 0;
        while j < n
            invariant
                old(self).wf(),
                *self == (Style { rules: self.rules, ..*old(self) }),
                n == newseq.len(),
                j <= n,
                new_rules@ == newseq.skip(j as int),
                self.rules@ == rules0 + newseq.take(j as int),
            decreases n - j,
        {
            let rule = new_rules.remove(0);
            self.rules.push(rule);
            proof {
                assert(new_rules@ =~= newseq.skip(j + 1));
                assert(self.rules@ =~= rules0 + newseq.take(j + 1));
            }
            j += 1;
        }
        proof {
            assert(self.rules@.take(rules0.len() as int) =~= rules0);
            assert(self.rules@.skip(rules0.len() as int) =~= newseq);
            let emap = errors@.map_values(
                |e: crate::parser::CustomParseError| crate::parser::err_view(e),
            );
            assert(emap.skip(0) =~= emap);
            let w = choose|toks: Seq<crate::parser::Token>|
                #![auto]
                toks.map_values(|t: crate::parser::Token| crate::parser::tok_view(t))
                    == crate::parser::spec_tokenize(text@) && crate::parser::spec_parse_rules(
                    toks,
                    first as int,
                ) == (
                    newseq.map_values(
                        |r: StyleRule| crate::parser::rule_view(r),
                    ),
                    emap.skip(0),
                );
            assert(crate::parser::spec_parse_rules(w, rules0.len() as int) == (
                self.rules@.skip(rules0.len() as int).map_values(
                    |r: StyleRule| crate::parser::rule_view(r),
                ),
                emap,
            ));
        }
        self.needs_restyle = true;
        errors
    }
}

} // verus!
