use pastel::codegen::tokens::generate_css;
use pastel::ir::{IrTokenEntry, IrTokenGroup, IrTokenValue};
use pastel::number::Decimal;

fn num(m: i64, s: u32) -> Decimal {
    Decimal::new(m, s).unwrap()
}

#[test]
fn css_color_tokens() {
    let groups = vec![IrTokenGroup {
        name: "color".into(),
        entries: vec![IrTokenEntry {
            key: "primary".into(),
            value: IrTokenValue::Color("#0066FF".into()),
        }],
    }];
    let css = generate_css(&groups);
    assert!(css.contains("--color-primary: #0066FF;"));
}

#[test]
fn css_spacing_tokens() {
    let groups = vec![IrTokenGroup {
        name: "spacing".into(),
        entries: vec![IrTokenEntry {
            key: "sm".into(),
            value: IrTokenValue::Number(num(8, 0)),
        }],
    }];
    let css = generate_css(&groups);
    assert!(css.contains("--spacing-sm: 8px;"));
}

#[test]
fn shadow_array_css() {
    let groups = vec![IrTokenGroup {
        name: "shadow".into(),
        entries: vec![IrTokenEntry {
            key: "sm".into(),
            value: IrTokenValue::Array(vec![
                IrTokenValue::Number(num(0, 0)),
                IrTokenValue::Number(num(1, 0)),
                IrTokenValue::Number(num(3, 0)),
                IrTokenValue::Color("#0000000D".into()),
            ]),
        }],
    }];
    let css = generate_css(&groups);
    assert!(css.contains("--shadow-sm: 0px 1px 3px #0000000D;"));
}

#[test]
fn css_fractional_number_token() {
    let groups = vec![IrTokenGroup {
        name: "size".into(),
        entries: vec![IrTokenEntry { key: "half".into(), value: IrTokenValue::Number(num(5, 1)) }],
    }];
    assert_eq!(generate_css(&groups), ":root {\n  --size-half: 0.5px;\n}");
}

#[test]
fn css_object_token_is_skipped() {
    let groups = vec![IrTokenGroup {
        name: "typography".into(),
        entries: vec![
            IrTokenEntry { key: "body".into(), value: IrTokenValue::Object(vec![]) },
            IrTokenEntry { key: "on".into(), value: IrTokenValue::Bool(true) },
        ],
    }];
    assert_eq!(generate_css(&groups), ":root {\n  --typography-on: true;\n}");
}
