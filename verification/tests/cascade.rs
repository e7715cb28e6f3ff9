use kosmonaut_style::parse::{parse_css_to_stylesheet, ParseError, StyleParseErrorKind};
use kosmonaut_style::properties::PropertyDeclaration;
use kosmonaut_style::specified::{
    AbsoluteLength, LengthPercentage, LengthPercentageOrAuto, NoCalcLength,
};
use kosmonaut_style::stylesheet::{CssRule, Stylesheet};

fn font_size_scaled_or_panic(decl: &PropertyDeclaration) -> i64 {
    match decl {
        PropertyDeclaration::FontSize(LengthPercentage::Length(NoCalcLength::Absolute(
            AbsoluteLength::Px(v),
        ))) => *v,
        _ => panic!("expected a px font-size declaration"),
    }
}

#[test]
fn selects_last_rules_prop_in_dupes_across_rules() {
    let mut sheet_a = parse_css_to_stylesheet(".a { font-size: 12px; }".as_bytes())
        .expect("failed getting sheet_a for cross-block deduping test");
    let sheet_b = parse_css_to_stylesheet(".a { font-size: 16px; }".as_bytes())
        .expect("failed getting sheet_b for cross-block deduping test");
    sheet_a.add_rule(sheet_b.rules()[0].duplicate());

    // The only declaration of the first rule, `font-size: 12px`, is obsoleted
    // by the new rule's `font-size: 16px`, so the first rule is deleted
    // entirely.
    assert_eq!(sheet_a.rules().len(), 1);
    match &sheet_a.rules()[0] {
        CssRule::Style(style_rule) => assert_eq!(
            16_000_000,
            font_size_scaled_or_panic(&style_rule.block.declarations()[0])
        ),
        _ => panic!("should always be a `StyleRule` CssRule"),
    }
}

#[test]
fn rule_removed_when_only_decl_superseded() {
    // Net of the new rule added, the list length decreases by one.
    let mut sheet = parse_css_to_stylesheet(".a { font-size: 12px; }".as_bytes()).unwrap();
    assert_eq!(sheet.rules().len(), 1);
    let newer = parse_css_to_stylesheet(".a { font-size: 16px; }".as_bytes()).unwrap();
    sheet.add_rule(newer.rules()[0].duplicate());
    assert_eq!(sheet.rules().len(), 1);
}

#[test]
fn disjoint_properties_do_not_interfere() {
    // Same selector, different property kinds: both declarations stay live,
    // across the two rule entries.
    let mut sheet = parse_css_to_stylesheet(".a { font-size: 12px; }".as_bytes()).unwrap();
    let other = parse_css_to_stylesheet(".a { margin-top: 3px; }".as_bytes()).unwrap();
    sheet.add_rule(other.rules()[0].duplicate());
    assert_eq!(sheet.rules().len(), 2);
    match &sheet.rules()[0] {
        CssRule::Style(sr) => {
            assert_eq!(sr.block.declarations().len(), 1);
            assert_eq!(12_000_000, font_size_scaled_or_panic(&sr.block.declarations()[0]));
        }
        _ => panic!("expected a style rule"),
    }
    match &sheet.rules()[1] {
        CssRule::Style(sr) => {
            assert_eq!(sr.block.declarations().len(), 1);
            assert!(matches!(
                sr.block.declarations()[0],
                PropertyDeclaration::MarginTop(LengthPercentageOrAuto::LengthPercentage(_))
            ));
        }
        _ => panic!("expected a style rule"),
    }
}

#[test]
fn different_selectors_never_dedup() {
    let mut sheet = parse_css_to_stylesheet(".a { font-size: 12px; }".as_bytes()).unwrap();
    let other = parse_css_to_stylesheet(".b { font-size: 16px; }".as_bytes()).unwrap();
    sheet.add_rule(other.rules()[0].duplicate());
    assert_eq!(sheet.rules().len(), 2);
    match &sheet.rules()[0] {
        CssRule::Style(sr) => {
            assert_eq!(sr.selectors, b".a".to_vec());
            assert_eq!(12_000_000, font_size_scaled_or_panic(&sr.block.declarations()[0]));
        }
        _ => panic!("expected a style rule"),
    }
}

#[test]
fn parser_round_trip_sanity() {
    let sheet = parse_css_to_stylesheet(".a { font-size: 12px; }".as_bytes()).unwrap();
    assert_eq!(sheet.rules().len(), 1);
    match &sheet.rules()[0] {
        CssRule::Style(sr) => {
            assert_eq!(sr.selectors, b".a".to_vec());
            assert_eq!(sr.block.declarations().len(), 1);
            assert_eq!(12_000_000, font_size_scaled_or_panic(&sr.block.declarations()[0]));
        }
        _ => panic!("expected a style rule"),
    }
}

#[test]
fn empty_rule_is_pruned_by_matching_insertion() {
    let mut sheet = parse_css_to_stylesheet(".a { }".as_bytes()).unwrap();
    assert_eq!(sheet.rules().len(), 1);
    let newer = parse_css_to_stylesheet(".a { font-size: 16px; }".as_bytes()).unwrap();
    sheet.add_rule(newer.rules()[0].duplicate());
    assert_eq!(sheet.rules().len(), 1);
}

#[test]
fn intra_block_duplicates_are_both_kept() {
    // Deduplication is cross-rule; a block keeps its own declarations as
    // written.
    let sheet =
        parse_css_to_stylesheet(".a { font-size: 1px; font-size: 2px; }".as_bytes()).unwrap();
    assert_eq!(sheet.rules().len(), 1);
    match &sheet.rules()[0] {
        CssRule::Style(sr) => assert_eq!(sr.block.declarations().len(), 2),
        _ => panic!("expected a style rule"),
    }
}

#[test]
fn unknown_declaration_is_skipped_not_fatal() {
    let sheet =
        parse_css_to_stylesheet(".a { color: red; font-size: 10px }".as_bytes()).unwrap();
    assert_eq!(sheet.rules().len(), 1);
    match &sheet.rules()[0] {
        CssRule::Style(sr) => {
            assert_eq!(sr.block.declarations().len(), 1);
            assert_eq!(10_000_000, font_size_scaled_or_panic(&sr.block.declarations()[0]));
        }
        _ => panic!("expected a style rule"),
    }
}

#[test]
fn at_rule_becomes_unsupported_placeholder() {
    let sheet = parse_css_to_stylesheet(
        "@media screen { .x { font-size: 1px; } } .b { margin-top: auto; }".as_bytes(),
    )
    .unwrap();
    assert_eq!(sheet.rules().len(), 2);
    assert!(matches!(sheet.rules()[0], CssRule::Unsupported));
    match &sheet.rules()[1] {
        CssRule::Style(sr) => {
            assert_eq!(sr.selectors, b".b".to_vec());
            assert!(matches!(
                sr.block.declarations()[0],
                PropertyDeclaration::MarginTop(LengthPercentageOrAuto::Auto)
            ));
        }
        _ => panic!("expected a style rule"),
    }
}

#[test]
fn missing_block_is_unexpected_eof() {
    let err: ParseError = parse_css_to_stylesheet(".a  font-size".as_bytes()).unwrap_err();
    assert_eq!(err.kind, StyleParseErrorKind::UnexpectedEof);
    assert_eq!(err.offset, ".a  font-size".len());
}

#[test]
fn empty_selector_is_invalid() {
    let err: ParseError = parse_css_to_stylesheet("{ font-size: 10px; }".as_bytes()).unwrap_err();
    assert_eq!(err.kind, StyleParseErrorKind::InvalidSelector);
    assert_eq!(err.offset, 0);
}

#[test]
fn unclosed_block_is_closed_by_eof() {
    let sheet = parse_css_to_stylesheet(".a { font-size: 12px".as_bytes()).unwrap();
    assert_eq!(sheet.rules().len(), 1);
    match &sheet.rules()[0] {
        CssRule::Style(sr) => {
            assert_eq!(12_000_000, font_size_scaled_or_panic(&sr.block.declarations()[0]));
        }
        _ => panic!("expected a style rule"),
    }
}

#[test]
fn names_and_units_are_case_insensitive() {
    let sheet = parse_css_to_stylesheet(".a { FONT-SIZE: 12PX; }".as_bytes()).unwrap();
    match &sheet.rules()[0] {
        CssRule::Style(sr) => {
            assert_eq!(12_000_000, font_size_scaled_or_panic(&sr.block.declarations()[0]));
        }
        _ => panic!("expected a style rule"),
    }
}

#[test]
fn fresh_sheet_is_empty() {
    let sheet = Stylesheet::new();
    assert_eq!(sheet.rules().len(), 0);
}
