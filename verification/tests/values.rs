use kosmonaut_style::apply::{NodeStyleData, RuleOrigin, RuleWithOrigin, StylesheetOrigin};
use kosmonaut_style::computed;
use kosmonaut_style::computed::{CSSPixelLength, ComputeContext, Percentage, NUM_SCALE, PX_SUBUNITS};
use kosmonaut_style::margin::computed_margin_size;
use kosmonaut_style::parse::{parse_css_to_stylesheet, StyleParseErrorKind};
use kosmonaut_style::properties::PropertyDeclaration;
use kosmonaut_style::specified;
use kosmonaut_style::specified::{AbsoluteLength, NoCalcLength};
use kosmonaut_style::stylesheet::CssRule;

fn px_of(l: AbsoluteLength) -> i128 {
    l.to_px().px()
}

#[test]
fn unit_conversion_is_exact() {
    // One unit of each kind, in px subunits (1 px == PX_SUBUNITS subunits).
    let one = NUM_SCALE;
    assert_eq!(px_of(AbsoluteLength::Px(one)), PX_SUBUNITS);
    assert_eq!(px_of(AbsoluteLength::In(one)), 96 * PX_SUBUNITS);
    assert_eq!(px_of(AbsoluteLength::Pc(one)), 16 * PX_SUBUNITS);
    // pt: 96/72 px, cleared of denominators.
    assert_eq!(72 * px_of(AbsoluteLength::Pt(one)), 96 * PX_SUBUNITS);
    // cm: 96/2.54 px; mm and q likewise with fixed ratios.
    assert_eq!(254 * px_of(AbsoluteLength::Cm(one)), 9600 * PX_SUBUNITS);
    assert_eq!(254 * px_of(AbsoluteLength::Mm(one)), 960 * PX_SUBUNITS);
    assert_eq!(254 * px_of(AbsoluteLength::Q(one)), 240 * PX_SUBUNITS);
    // An inch equals 96 px for a fractional magnitude too, exactly.
    assert_eq!(
        px_of(AbsoluteLength::In(1_500_000)),
        px_of(AbsoluteLength::Px(96 * 1_500_000))
    );
}

#[test]
fn computed_values_are_deterministic() {
    let x = specified::LengthPercentageOrAuto::LengthPercentage(
        specified::LengthPercentage::Length(NoCalcLength::Absolute(AbsoluteLength::Cm(
            1_250_000,
        ))),
    );
    let r1 = computed_margin_size(&x);
    let r2 = computed_margin_size(&x);
    assert_eq!(r1, r2);
}

#[test]
fn margins_default_to_zero_pixels() {
    let ctx = ComputeContext {};
    let zero = computed::LengthPercentageOrAuto::LengthPercentage(
        computed::LengthPercentage::Length(CSSPixelLength::new(0)),
    );
    assert_eq!(specified::MarginTop::value_default(&ctx).size, zero);
    assert_eq!(specified::MarginBottom::value_default(&ctx).size, zero);
    assert_eq!(specified::MarginLeft::value_default(&ctx).size, zero);
    assert_eq!(specified::MarginRight::value_default(&ctx).size, zero);
    assert_eq!(kosmonaut_style::margin::MarginTop::initial_value().size, zero);
    assert_eq!(kosmonaut_style::margin::MarginBottom::initial_value().size, zero);
    assert_eq!(kosmonaut_style::margin::MarginLeft::initial_value().size, zero);
    assert_eq!(kosmonaut_style::margin::MarginRight::initial_value().size, zero);
}

#[test]
fn margin_computation_resolves_lengths_and_keeps_auto() {
    let ctx = ComputeContext {};
    let auto = specified::MarginTop { lp_or_auto: specified::LengthPercentageOrAuto::Auto };
    assert_eq!(
        auto.compute_value_with_context(&ctx).size,
        computed::LengthPercentageOrAuto::Auto
    );
    let one_in = specified::MarginLeft {
        lp_or_auto: specified::LengthPercentageOrAuto::LengthPercentage(
            specified::LengthPercentage::Length(NoCalcLength::Absolute(AbsoluteLength::In(
                NUM_SCALE,
            ))),
        ),
    };
    assert_eq!(
        one_in.compute_value_with_context(&ctx).size,
        computed::LengthPercentageOrAuto::LengthPercentage(computed::LengthPercentage::Length(
            CSSPixelLength::new(96 * PX_SUBUNITS)
        ))
    );
}

#[test]
fn parse_dimension_accepts_the_unit_table() {
    let v = 2_000_000;
    assert_eq!(
        NoCalcLength::parse_dimension(v, b"px"),
        Ok(NoCalcLength::Absolute(AbsoluteLength::Px(v)))
    );
    assert_eq!(
        NoCalcLength::parse_dimension(v, b"In"),
        Ok(NoCalcLength::Absolute(AbsoluteLength::In(v)))
    );
    assert_eq!(
        NoCalcLength::parse_dimension(v, b"CM"),
        Ok(NoCalcLength::Absolute(AbsoluteLength::Cm(v)))
    );
    assert_eq!(
        NoCalcLength::parse_dimension(v, b"mm"),
        Ok(NoCalcLength::Absolute(AbsoluteLength::Mm(v)))
    );
    assert_eq!(
        NoCalcLength::parse_dimension(v, b"q"),
        Ok(NoCalcLength::Absolute(AbsoluteLength::Q(v)))
    );
    assert_eq!(
        NoCalcLength::parse_dimension(v, b"pt"),
        Ok(NoCalcLength::Absolute(AbsoluteLength::Pt(v)))
    );
    assert_eq!(
        NoCalcLength::parse_dimension(v, b"pc"),
        Ok(NoCalcLength::Absolute(AbsoluteLength::Pc(v)))
    );
    assert_eq!(NoCalcLength::parse_dimension(v, b"em"), Err(()));
    assert_eq!(NoCalcLength::parse_dimension(v, b""), Err(()));
}

#[test]
fn parser_handles_signs_fractions_and_all_margin_sides() {
    let css = ".m { margin-top: 1.5in; margin-left: -2pt; margin-right: auto; \
               margin-bottom: .5cm; }";
    let sheet = parse_css_to_stylesheet(css.as_bytes()).unwrap();
    assert_eq!(sheet.rules().len(), 1);
    let decls = match &sheet.rules()[0] {
        CssRule::Style(sr) => sr.block.declarations().clone(),
        _ => panic!("expected a style rule"),
    };
    assert_eq!(decls.len(), 4);
    let lp = |l: AbsoluteLength| {
        specified::LengthPercentageOrAuto::LengthPercentage(
            specified::LengthPercentage::Length(NoCalcLength::Absolute(l)),
        )
    };
    assert_eq!(
        decls[0],
        PropertyDeclaration::MarginTop(lp(AbsoluteLength::In(1_500_000)))
    );
    assert_eq!(
        decls[1],
        PropertyDeclaration::MarginLeft(lp(AbsoluteLength::Pt(-2_000_000)))
    );
    assert_eq!(
        decls[2],
        PropertyDeclaration::MarginRight(specified::LengthPercentageOrAuto::Auto)
    );
    assert_eq!(
        decls[3],
        PropertyDeclaration::MarginBottom(lp(AbsoluteLength::Cm(500_000)))
    );
}

#[test]
fn bare_numbers_and_unknown_units_are_rejected_per_declaration() {
    let sheet =
        parse_css_to_stylesheet(".a { margin-top: 12; margin-left: 1em; }".as_bytes()).unwrap();
    match &sheet.rules()[0] {
        CssRule::Style(sr) => assert_eq!(sr.block.declarations().len(), 0),
        _ => panic!("expected a style rule"),
    }
}

#[test]
fn pixel_length_arithmetic_helpers() {
    let a = CSSPixelLength::new(-500);
    assert_eq!(a.abs().px(), 500);
    assert_eq!(a.clamp_to_non_negative().px(), 0);
    let b = CSSPixelLength::new(300);
    assert_eq!(a.min(b).px(), -500);
    assert_eq!(a.max(b).px(), 300);
    let mut c = CSSPixelLength::new(7);
    c.max_assign(CSSPixelLength::new(9));
    assert_eq!(c.px(), 9);
    assert_eq!(b.clamp_to_non_negative().px(), 300);
}

#[test]
fn app_unit_conversion_rounds_half_away_from_zero() {
    // One app unit is 1/60 px: PX_SUBUNITS / 60 == 6_350_000 subunits.
    assert_eq!(CSSPixelLength::new(PX_SUBUNITS).to_i32_au(), 60);
    assert_eq!(CSSPixelLength::new(3_175_000).to_i32_au(), 1);
    assert_eq!(CSSPixelLength::new(3_174_999).to_i32_au(), 0);
    assert_eq!(CSSPixelLength::new(-3_175_000).to_i32_au(), -1);
    assert_eq!(CSSPixelLength::new(0).to_i32_au(), 0);
}

#[test]
fn percentage_helpers() {
    assert_eq!(Percentage::hundred().0, NUM_SCALE);
    assert_eq!(Percentage(-250_000).abs().0, 250_000);
    assert_eq!(Percentage(-250_000).clamp_to_non_negative().0, 0);
    assert_eq!(Percentage(250_000).clamp_to_non_negative().0, 250_000);
}

#[test]
fn node_rule_lists_accumulate_in_attachment_order() {
    let sheet = parse_css_to_stylesheet(".a { font-size: 12px; } .b { margin-top: auto; }"
        .as_bytes())
    .unwrap();
    let mut node = NodeStyleData::new();
    for rule in sheet.rules() {
        if matches!(rule, CssRule::Style(_)) {
            node.add_rule(RuleWithOrigin::new(StylesheetOrigin::Author, rule));
        }
    }
    let sheet2 = parse_css_to_stylesheet(".a { margin-left: 1px; }".as_bytes()).unwrap();
    for rule in sheet2.rules() {
        if matches!(rule, CssRule::Style(_)) {
            node.add_rule(RuleWithOrigin::new(StylesheetOrigin::UserAgent, rule));
        }
    }
    assert_eq!(node.rules().len(), 3);
    assert_eq!(node.rules()[0].origin, RuleOrigin::Sheet(StylesheetOrigin::Author));
    assert_eq!(node.rules()[2].origin, RuleOrigin::Sheet(StylesheetOrigin::UserAgent));
    match &node.rules()[0].rule {
        CssRule::Style(sr) => assert_eq!(sr.selectors, b".a".to_vec()),
        _ => panic!("expected a style rule"),
    }
}

#[test]
fn length_percentage_parse_accepts_dimensions_only() {
    assert_eq!(
        specified::LengthPercentage::parse(b"12px"),
        Ok(specified::LengthPercentage::Length(NoCalcLength::Absolute(AbsoluteLength::Px(
            12_000_000
        ))))
    );
    assert_eq!(
        specified::LengthPercentage::parse(b"1.5in"),
        Ok(specified::LengthPercentage::Length(NoCalcLength::Absolute(AbsoluteLength::In(
            1_500_000
        ))))
    );
    let err = specified::LengthPercentage::parse(b"auto").unwrap_err();
    assert_eq!(err.kind, StyleParseErrorKind::UnexpectedToken);
    assert_eq!(err.offset, 0);
    assert!(specified::LengthPercentage::parse(b"12").is_err());
    assert!(specified::LengthPercentage::parse(b"px").is_err());
}
