//! The stylesheet grammar, selector matching, and the cascade.

use vizia_core::binding::{Data, Lens};
use vizia_core::color::{css_color, css_string, Color};
use vizia_core::context::Context;
use vizia_core::entity::Entity;
use vizia_core::units::Units;
use vizia_core::views::build_element;
use vizia_core::parser::{parse_transition, tokenize, CustomParseError};
use vizia_core::localization::{Localized, LocalizedArg};

#[derive(Clone, Debug, PartialEq)]
struct Model(i64);

#[derive(Clone, Debug, PartialEq)]
struct Val(i64);

impl Data for Val {
    fn same_spec(&self, other: &Self) -> bool {
        self.0 == other.0
    }

    fn same(&self, other: &Self) -> bool {
        self.0 == other.0
    }
}

#[derive(Clone, Debug)]
struct ValueLens;

impl Lens for ValueLens {
    type Source = Model;
    type Target = Val;

    fn view_spec(&self, source: &Model) -> Option<Val> {
        Some(Val(source.0))
    }

    fn view(&self, source: &Model) -> Option<Val> {
        Some(Val(source.0))
    }

    fn key_spec(&self) -> Option<u64> {
        Some(1)
    }

    fn cache_key(&self) -> Option<u64> {
        Some(1)
    }

    fn dup(&self) -> Self {
        ValueLens
    }
}

type Cx = Context<u32, ValueLens>;

#[test]
fn css_color_names_resolve() {
    assert_eq!(css_color("red"), Some(Color::rgb(255, 0, 0)));
    assert_eq!(css_color("teal"), Some(Color::rgb(0, 128, 128)));
    assert_eq!(css_color("grey"), Some(Color::rgb(128, 128, 128)));
    assert_eq!(css_color("transparent"), Some(Color::rgba(0, 0, 0, 0)));
    assert_eq!(css_color("vermilion"), None);
}

#[test]
fn css_string_passes_through() {
    assert_eq!(css_string("anything").as_deref(), Some("anything"));
}

#[test]
fn class_rule_sets_width_regardless_of_parent_size() {
    // Rule `.foo { width: 10px; }`, class "foo" on a root child: after the
    // restyle the computed width resolves to 10 device-independent pixels
    // whatever the reference length.
    let mut cx: Cx = Context::new();
    let x = build_element(&mut cx, "element").unwrap();
    cx.class(x, "foo");
    let errors = cx.add_theme(".foo { width: 10px; }");
    assert!(errors.is_empty());
    cx.process_style_updates();
    let got = cx.style.width.get(x.index()).copied();
    assert_eq!(got, Some(Units::Pixels(10_000)));
    // Resolution ignores the reference length for pixel values.
    let w = got.unwrap();
    assert_eq!(w.value_or(123_456_000, 0), 10_000);
    assert_eq!(w.value_or(0, 0), 10_000);
}

#[test]
fn percentage_resolves_against_reference() {
    let mut cx: Cx = Context::new();
    let x = build_element(&mut cx, "element").unwrap();
    cx.class(x, "half");
    let errors = cx.add_theme(".half { width: 50%; }");
    assert!(errors.is_empty());
    cx.process_style_updates();
    let w = cx.style.width.get(x.index()).copied().unwrap();
    assert_eq!(w, Units::Percentage(50_000));
    // 50% of 200 pixels is 100 pixels.
    assert_eq!(w.value_or(200_000, 0), 100_000);
}

#[test]
fn later_rule_wins_without_specificity() {
    // Cascade order is source order: the last matching declaration wins even
    // when an earlier selector would be more specific in full CSS.
    let mut cx: Cx = Context::new();
    let x = build_element(&mut cx, "element").unwrap();
    cx.class(x, "foo");
    let errors = cx.add_theme(".foo { width: 10px; } element { width: 20px; }");
    assert!(errors.is_empty());
    cx.process_style_updates();
    assert_eq!(cx.style.width.get(x.index()).copied(), Some(Units::Pixels(20_000)));
}

#[test]
fn malformed_declaration_is_skipped_not_fatal() {
    let mut cx: Cx = Context::new();
    let x = build_element(&mut cx, "element").unwrap();
    cx.class(x, "foo");
    let errors = cx.add_theme(".foo { width: wat; height: 4px; }");
    assert_eq!(errors.len(), 1);
    cx.process_style_updates();
    // The bad declaration is dropped, the good one still applies.
    assert_eq!(cx.style.width.get(x.index()), None);
    assert_eq!(cx.style.height.get(x.index()).copied(), Some(Units::Pixels(4_000)));
}

#[test]
fn direct_parent_selector_skips_grandchildren() {
    // `vstack > checkbox:checked` matches only direct children of a vstack
    // carrying the checked pseudo-class; an intervening ancestor breaks it.
    let mut cx: Cx = Context::new();
    let parent = build_element(&mut cx, "vstack").unwrap();

    cx.current = parent;
    cx.count = 0;
    let direct = build_element(&mut cx, "checkbox").unwrap();
    cx.checked(direct, true);
    let unchecked = build_element(&mut cx, "checkbox").unwrap();
    cx.checked(unchecked, false);
    let mid = build_element(&mut cx, "element").unwrap();
    cx.current = mid;
    cx.count = 0;
    let grandchild = build_element(&mut cx, "checkbox").unwrap();
    cx.checked(grandchild, true);

    let errors = cx.add_theme("vstack > checkbox:checked { width: 7px; }");
    assert!(errors.is_empty());
    cx.process_style_updates();

    assert_eq!(cx.style.width.get(direct.index()).copied(), Some(Units::Pixels(7_000)));
    assert_eq!(cx.style.width.get(unchecked.index()), None);
    assert_eq!(cx.style.width.get(grandchild.index()), None);
}

#[test]
fn ancestor_selector_matches_across_levels() {
    let mut cx: Cx = Context::new();
    let top = build_element(&mut cx, "vstack").unwrap();
    cx.current = top;
    cx.count = 0;
    let mid = build_element(&mut cx, "element").unwrap();
    cx.current = mid;
    cx.count = 0;
    let deep = build_element(&mut cx, "label").unwrap();

    let errors = cx.add_theme("vstack label { height: 3px; }");
    assert!(errors.is_empty());
    cx.process_style_updates();
    assert_eq!(cx.style.height.get(deep.index()).copied(), Some(Units::Pixels(3_000)));
    assert_eq!(cx.style.height.get(mid.index()), None);
}

#[test]
fn hex_and_named_colors_parse_in_rules() {
    let mut cx: Cx = Context::new();
    let x = build_element(&mut cx, "element").unwrap();
    cx.class(x, "c");
    let errors = cx.add_theme(".c { background-color: #102030; color: lime; }");
    assert!(errors.is_empty());
    cx.process_style_updates();
    assert_eq!(
        cx.style.background_color.get(x.index()).copied(),
        Some(Color::rgb(0x10, 0x20, 0x30))
    );
    assert_eq!(cx.style.font_color.get(x.index()).copied(), Some(Color::rgb(0, 255, 0)));
}

#[test]
fn comma_separated_selectors_are_alternatives() {
    let mut cx: Cx = Context::new();
    let a = build_element(&mut cx, "label").unwrap();
    let b = build_element(&mut cx, "checkbox").unwrap();
    let c = build_element(&mut cx, "element").unwrap();
    let errors = cx.add_theme("label, checkbox { width: 2px; }");
    assert!(errors.is_empty());
    cx.process_style_updates();
    assert_eq!(cx.style.width.get(a.index()).copied(), Some(Units::Pixels(2_000)));
    assert_eq!(cx.style.width.get(b.index()).copied(), Some(Units::Pixels(2_000)));
    assert_eq!(cx.style.width.get(c.index()), None);
}

#[test]
fn reload_styles_rebuilds_from_themes() {
    let mut cx: Cx = Context::new();
    let x = build_element(&mut cx, "element").unwrap();
    let errors = cx.add_theme("element { width: 9px; }");
    assert!(errors.is_empty());
    assert_eq!(cx.style.rules.len(), 1);
    let errors = cx.reload_styles().unwrap();
    assert!(errors.is_empty());
    assert_eq!(cx.style.rules.len(), 1);
    cx.process_style_updates();
    assert_eq!(cx.style.width.get(x.index()).copied(), Some(Units::Pixels(9_000)));
    cx.remove_user_themes();
    assert_eq!(cx.style.rules.len(), 0);
}

#[test]
fn fonts_reject_duplicate_names() {
    let mut cx: Cx = Context::new();
    cx.add_font_mem("sans", &[1, 2, 3]);
    cx.add_font_mem("sans", &[9, 9, 9]);
    assert_eq!(cx.resource_manager.fonts.len(), 1);
    assert_eq!(cx.resource_manager.fonts[0].data, vec![1, 2, 3]);
    cx.set_default_font("sans");
    assert_eq!(cx.style.default_font, "sans");
}

#[test]
fn unknown_property_is_collected_not_applied() {
    let mut cx: Cx = Context::new();
    let _x = build_element(&mut cx, "element").unwrap();
    let errors = cx.add_theme("element { mystery-prop: 4px; }");
    assert!(errors.is_empty());
    assert_eq!(cx.style.rules.len(), 1);
    assert_eq!(cx.style.rules[0].properties.len(), 1);
}

#[test]
fn comments_and_whitespace_are_ignored() {
    let mut cx: Cx = Context::new();
    let x = build_element(&mut cx, "element").unwrap();
    let errors = cx.add_theme("/* a note */ element { /* inner */ width : 1px ; }");
    assert!(errors.is_empty());
    cx.process_style_updates();
    assert_eq!(cx.style.width.get(x.index()).copied(), Some(Units::Pixels(1_000)));
}

#[test]
fn entity_absent_from_tree_never_matches() {
    let mut cx: Cx = Context::new();
    let x = build_element(&mut cx, "element").unwrap();
    let errors = cx.add_theme("element { width: 5px; }");
    assert!(errors.is_empty());
    cx.remove(x);
    cx.process_style_updates();
    assert_eq!(cx.style.width.get(x.index()), None);
    assert_eq!(cx.style.width.get(Entity::root().index()), None);
}

#[test]
fn value_or_resolves_units() {
    // Pixels ignore the reference; percentages scale; stretch and auto fall
    // back to the default.
    assert_eq!(Units::Pixels(5_000).value_or(1_000_000, 42), 5_000);
    assert_eq!(Units::Percentage(25_000).value_or(400_000, 42), 100_000);
    assert_eq!(Units::Percentage(-25_000).value_or(400_000, 42), -100_000);
    assert_eq!(Units::Stretch(1_000).value_or(400_000, 42), 42);
    assert_eq!(Units::Auto.value_or(400_000, 42), 42);
}

#[test]
fn tokenizer_reads_fractions_and_negatives() {
    let mut cx: Cx = Context::new();
    let x = build_element(&mut cx, "element").unwrap();
    let errors = cx.add_theme("element { width: 1.5px; left: -2px; }");
    assert!(errors.is_empty());
    cx.process_style_updates();
    assert_eq!(cx.style.width.get(x.index()).copied(), Some(Units::Pixels(1_500)));
    assert_eq!(cx.style.left.get(x.index()).copied(), Some(Units::Pixels(-2_000)));
}

#[test]
fn stretch_and_auto_parse() {
    let mut cx: Cx = Context::new();
    let x = build_element(&mut cx, "element").unwrap();
    let errors = cx.add_theme("element { width: 2s; height: auto; }");
    assert!(errors.is_empty());
    cx.process_style_updates();
    assert_eq!(cx.style.width.get(x.index()).copied(), Some(Units::Stretch(2_000)));
    assert_eq!(cx.style.height.get(x.index()).copied(), Some(Units::Auto));
}

#[test]
fn short_hex_colors_double_their_digits() {
    let mut cx: Cx = Context::new();
    let x = build_element(&mut cx, "element").unwrap();
    let errors = cx.add_theme("element { color: #1a2; border-color: #11223344; }");
    assert!(errors.is_empty());
    cx.process_style_updates();
    assert_eq!(cx.style.font_color.get(x.index()).copied(), Some(Color::rgb(0x11, 0xaa, 0x22)));
    assert_eq!(
        cx.style.border_color.get(x.index()).copied(),
        Some(Color::rgba(0x11, 0x22, 0x33, 0x44))
    );
}

#[test]
fn bad_color_reports_its_kind() {
    let mut cx: Cx = Context::new();
    let _x = build_element(&mut cx, "element").unwrap();
    let errors = cx.add_theme("element { color: vermilion; }");
    assert_eq!(errors.len(), 1);
    assert!(matches!(errors[0], CustomParseError::UnrecognisedColorName(_)));
}

#[test]
fn unknown_pseudo_class_rejects_the_rule() {
    let mut cx: Cx = Context::new();
    let x = build_element(&mut cx, "element").unwrap();
    cx.checked(x, true);
    let errors = cx.add_theme("element:sideways { width: 1px; } element:checked { width: 2px; }");
    assert_eq!(errors.len(), 1);
    assert!(matches!(errors[0], CustomParseError::UnrecognisedPseudoclass(_)));
    cx.process_style_updates();
    assert_eq!(cx.style.width.get(x.index()).copied(), Some(Units::Pixels(2_000)));
}

#[test]
fn shorthand_properties_fan_out() {
    let mut cx: Cx = Context::new();
    let x = build_element(&mut cx, "element").unwrap();
    let errors = cx.add_theme("element { space: 3px; child-space: 4px; }");
    assert!(errors.is_empty());
    cx.process_style_updates();
    for store in [&cx.style.left, &cx.style.right, &cx.style.top, &cx.style.bottom] {
        assert_eq!(store.get(x.index()).copied(), Some(Units::Pixels(3_000)));
    }
    for store in [
        &cx.style.child_left,
        &cx.style.child_right,
        &cx.style.child_top,
        &cx.style.child_bottom,
    ] {
        assert_eq!(store.get(x.index()).copied(), Some(Units::Pixels(4_000)));
    }
}

#[test]
fn localized_requests_accumulate_arguments() {
    let l = Localized::new("greeting").arg_const("name", "sam").arg("count", 3);
    assert_eq!(l.key, "greeting");
    assert_eq!(l.args.len(), 2);
    assert_eq!(l.args[0].0, "name");
    assert_eq!(l.args[0].1, LocalizedArg::Text("sam".to_string()));
    assert_eq!(l.args[1].1, LocalizedArg::Integer(3));
}

#[test]
fn transition_parses_property_duration_and_delay() {
    let toks = tokenize("opacity 0.2 0.1");
    let mut pos = 0usize;
    let t = parse_transition(&toks, &mut pos).unwrap();
    assert_eq!(t.property, "opacity");
    assert_eq!(t.duration, 200);
    assert_eq!(t.delay, 100);
    assert_eq!(pos, toks.len());
}

#[test]
fn transition_delay_defaults_to_zero() {
    let toks = tokenize("width 1.5");
    let mut pos = 0usize;
    let t = parse_transition(&toks, &mut pos).unwrap();
    assert_eq!(t.property, "width");
    assert_eq!(t.duration, 1_500);
    assert_eq!(t.delay, 0);
}

#[test]
fn transition_without_duration_is_rejected() {
    let toks = tokenize("opacity fast");
    let mut pos = 0usize;
    let r = parse_transition(&toks, &mut pos);
    assert!(matches!(r, Err(CustomParseError::InvalidValue(_))));
    assert_eq!(pos, 0);
}

#[test]
fn class_keeps_earlier_classes_and_other_entities() {
    let mut cx: Cx = Context::new();
    let a = build_element(&mut cx, "element").unwrap();
    let b = build_element(&mut cx, "element").unwrap();
    cx.class(a, "first");
    cx.class(b, "other");
    cx.class(a, "second");
    cx.class(a, "second");
    let la = cx.style.classes.get(a.index()).unwrap();
    assert_eq!(la, &vec!["first".to_string(), "second".to_string()]);
    let lb = cx.style.classes.get(b.index()).unwrap();
    assert_eq!(lb, &vec!["other".to_string()]);
}
