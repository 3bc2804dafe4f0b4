use koko::style::{StyleBlend, StyleError, StyleTerm};

fn term(name: &str, tenths: u8) -> StyleTerm {
    StyleTerm { name: name.to_string(), tenths }
}

#[test]
fn parse_keeps_order_and_tenths() {
    let b = StyleBlend::parse("af_sky.4+af_nicole.3").unwrap();
    assert_eq!(b.terms, vec![term("af_sky", 4), term("af_nicole", 3)]);
}

#[test]
fn parse_default_style() {
    let b = StyleBlend::parse("af_sarah.4+af_nicole.6").unwrap();
    assert_eq!(b.terms, vec![term("af_sarah", 4), term("af_nicole", 6)]);
}

#[test]
fn parse_single_term() {
    let b = StyleBlend::parse("af_bella.9").unwrap();
    assert_eq!(b.terms, vec![term("af_bella", 9)]);
}

#[test]
fn parse_keeps_duplicate_names() {
    let b = StyleBlend::parse("af.1+af.2").unwrap();
    assert_eq!(b.terms, vec![term("af", 1), term("af", 2)]);
}

#[test]
fn parse_zero_weight() {
    let b = StyleBlend::parse("af_sky.0").unwrap();
    assert_eq!(b.terms, vec![term("af_sky", 0)]);
}

#[test]
fn parse_empty_fails() {
    assert_eq!(StyleBlend::parse(""), Err(StyleError::Empty));
}

#[test]
fn parse_missing_weight_fails() {
    assert_eq!(StyleBlend::parse("af_sky"), Err(StyleError::MissingWeight { term: 0 }));
    assert_eq!(
        StyleBlend::parse("af_sky.4+af_nicole"),
        Err(StyleError::MissingWeight { term: 1 })
    );
    assert_eq!(StyleBlend::parse("af_sky.4+"), Err(StyleError::MissingWeight { term: 1 }));
}

#[test]
fn parse_non_digit_weight_fails() {
    assert_eq!(StyleBlend::parse("af_sky.x"), Err(StyleError::BadWeight { term: 0 }));
    assert_eq!(StyleBlend::parse("af_sky."), Err(StyleError::BadWeight { term: 0 }));
    assert_eq!(StyleBlend::parse("af_sky.45"), Err(StyleError::BadWeight { term: 0 }));
    assert_eq!(StyleBlend::parse("a.b.4"), Err(StyleError::BadWeight { term: 0 }));
    assert_eq!(StyleBlend::parse("a.1+b.z"), Err(StyleError::BadWeight { term: 1 }));
}

#[test]
fn parse_first_bad_term_decides() {
    assert_eq!(StyleBlend::parse("a+b.x"), Err(StyleError::MissingWeight { term: 0 }));
    assert_eq!(StyleBlend::parse("a.x+b"), Err(StyleError::BadWeight { term: 0 }));
}

#[test]
fn render_joins_terms() {
    let b = StyleBlend { terms: vec![term("af_sky", 4), term("af_nicole", 3)] };
    assert_eq!(b.render(), "af_sky.4+af_nicole.3");
}

#[test]
fn reparse_gives_same_blend() {
    for expr in ["af_sky.4+af_nicole.3", "a.0", "x.9+x.9+y.1", "ü_voice.5"] {
        let b = StyleBlend::parse(expr).unwrap();
        let again = StyleBlend::parse(&b.render()).unwrap();
        assert_eq!(again, b);
        assert_eq!(b.render(), expr);
    }
}
