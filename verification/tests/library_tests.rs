use pastel::ast::{IncludeDecl, Program};
use pastel::codegen::html::{escape_html, generate_html};
use pastel::codegen::react::{can_generate_react, generate_react, pascal_case};
use pastel::codegen::Format;
use pastel::error::ErrorKind;
use pastel::formatter::Formatter;
use pastel::ir::extra::FontWeight;
use pastel::ir::node::IrNodeData;
use pastel::ir::style::{Color, Dimension, Fill};
use pastel::lint::rules::lint_document;
use pastel::pipeline::{compile, parse_source};
use pastel::semantic::imports::{merge_include, read_error, resolve_error, visit};
use pastel::semantic::VariableResolver;
use pastel::summary::{can_plan, describe_node, inspect_text, plan_text, total_nodes};
use pastel::token::Span;
use pastel::export::export_plan;
use pastel::lint::rules::closest_num;
use pastel::number::Decimal;
use pastel::ast::Expression;

fn span() -> Span {
    Span { start: 0, end: 0, line: 3, col: 1 }
}

fn incl(path: &str, ns: Option<&str>) -> IncludeDecl {
    IncludeDecl { path: path.to_string(), namespace: ns.map(|s| s.to_string()), span: span() }
}

fn solid(ir: &pastel::ir::IrDocument, i: usize) -> Color {
    match &ir.nodes[i].data {
        IrNodeData::Frame(f) => match &f.visual.fill {
            Some(Fill::Solid { color }) => *color,
            _ => panic!("expected solid fill"),
        },
        _ => panic!("expected frame"),
    }
}

// ── Variables ───────────────────────────────────────────────────────────

#[test]
fn last_binding_of_a_variable_wins() {
    let mut vars = VariableResolver::new();
    vars.register("c".to_string(), Expression::Integer(1));
    vars.register("d".to_string(), Expression::Integer(5));
    vars.register("c".to_string(), Expression::Integer(2));
    assert!(matches!(vars.get("c"), Some(Expression::Integer(2))));
    assert!(matches!(vars.get("d"), Some(Expression::Integer(5))));
    assert!(vars.get("e").is_none());
}

#[test]
fn variable_chain_resolves_to_value() {
    let mut vars = VariableResolver::new();
    vars.register("a".to_string(), Expression::Ident("b".to_string()));
    vars.register("b".to_string(), Expression::Color("#123456".to_string()));
    match vars.resolve(&Expression::Ident("a".to_string())) {
        Expression::Color(c) => assert_eq!(c, "#123456"),
        _ => panic!("expected color"),
    }
}

#[test]
fn redefined_variable_uses_last_value() {
    let ir = compile("let c = #FF0000\nlet c = #00FF00\nframe box { fill = c }").unwrap();
    let c = solid(&ir, 0);
    assert_eq!((c.r, c.g, c.b), (0, 255, 0));
}

#[test]
fn token_dot_syntax_resolves() {
    let ir = compile("token colors { primary = #0066FF }\nframe box { fill = colors.primary }").unwrap();
    let c = solid(&ir, 0);
    assert_eq!((c.r, c.g, c.b, c.a), (0, 0x66, 0xFF, 255));
    assert_eq!(ir.tokens.len(), 1);
    assert_eq!(ir.tokens[0].name, "colors");
    assert_eq!(ir.tokens[0].entries[0].key, "primary");
}

// ── Errors of each kind ─────────────────────────────────────────────────

#[test]
fn error_unexpected_char() {
    let e = compile("frame a { width = 1 } @").unwrap_err();
    assert_eq!(e.kind, ErrorKind::UnexpectedChar);
}

#[test]
fn error_unterminated_string() {
    let e = compile("text \"open").unwrap_err();
    assert_eq!(e.kind, ErrorKind::UnterminatedString);
}

#[test]
fn error_invalid_color() {
    let e = compile("frame a { fill = #12 }").unwrap_err();
    assert_eq!(e.kind, ErrorKind::InvalidColor);
}

#[test]
fn error_expected_declaration() {
    let e = compile("42").unwrap_err();
    assert_eq!(e.kind, ErrorKind::ExpectedDeclaration);
}

#[test]
fn error_expected_token() {
    let e = compile("frame a { width 10 }").unwrap_err();
    assert!(matches!(e.kind, ErrorKind::ExpectedToken | ErrorKind::UnexpectedToken));
}

#[test]
fn unknown_name_as_fill_is_type_mismatch() {
    let e = compile("frame a { fill = nothing }").unwrap_err();
    assert_eq!(e.kind, ErrorKind::TypeMismatch);
    assert!(e.message.starts_with("expected fill, got "));
}

#[test]
fn error_undefined_component() {
    let e = compile("use missing()").unwrap_err();
    assert_eq!(e.kind, ErrorKind::UndefinedVariable);
    assert!(e.message.contains("missing"));
}

#[test]
fn error_type_mismatch() {
    let e = compile("frame a { width = \"wide\" }").unwrap_err();
    assert_eq!(e.kind, ErrorKind::TypeMismatch);
}

#[test]
fn error_invalid_value() {
    let e = compile("frame a { layout = diagonal }").unwrap_err();
    assert_eq!(e.kind, ErrorKind::InvalidValue);
}

#[test]
fn error_self_using_component() {
    let e = compile("component loop() { use loop() }\nuse loop()").unwrap_err();
    assert_eq!(e.kind, ErrorKind::InvalidValue);
    assert!(e.message.contains("loop"));
}

#[test]
fn error_gradient_needs_two_colors() {
    let e = compile("frame a { fill = linear-gradient(90, #FF0000) }").unwrap_err();
    assert_eq!(e.kind, ErrorKind::InvalidValue);
}

// ── Includes ────────────────────────────────────────────────────────────

#[test]
fn bare_include_refuses_duplicate_variable() {
    let mut main = parse_source("let brand = #FF0000").unwrap();
    let lib = parse_source("let brand = #00FF00").unwrap();
    let e = merge_include(&mut main, lib, &incl("./lib.pastel", None)).unwrap_err();
    assert_eq!(e.kind, ErrorKind::DuplicateId);
    assert_eq!(e.message, "variable 'brand' already defined (conflict from include './lib.pastel')");
    assert_eq!(e.hint.as_deref(), Some("use: include \"./lib.pastel\" as <namespace>"));
    assert_eq!(e.span.unwrap().line, 3);
}

#[test]
fn bare_include_appends_definitions() {
    let mut main = parse_source("let a = 1").unwrap();
    let lib = parse_source("let b = 2\nlet c = 3").unwrap();
    merge_include(&mut main, lib, &incl("./lib.pastel", None)).unwrap();
    let names: Vec<&str> = main.variables.iter().map(|v| v.name.as_str()).collect();
    assert_eq!(names, vec!["a", "b", "c"]);
}

#[test]
fn namespaced_include_prefixes_names() {
    let mut main = parse_source("let primary = #FF0000\nframe box { fill = brand.primary }").unwrap();
    let lib = parse_source("let primary = #00FF00").unwrap();
    merge_include(&mut main, lib, &incl("./brand.pastel", Some("brand"))).unwrap();
    let names: Vec<&str> = main.variables.iter().map(|v| v.name.as_str()).collect();
    assert_eq!(names, vec!["primary", "brand.primary", "primary"]);
    let ir = pastel::semantic::SemanticAnalyzer::new().analyze(&main).unwrap();
    let c = solid(&ir, 0);
    assert_eq!((c.r, c.g, c.b), (0, 255, 0));
}

#[test]
fn circular_include_is_reported() {
    let mut visited: Vec<String> = Vec::new();
    let inc = incl("./a.pastel", None);
    visit(&mut visited, "/p/a.pastel".to_string(), &inc).unwrap();
    visit(&mut visited, "/p/b.pastel".to_string(), &inc).unwrap();
    let e = visit(&mut visited, "/p/a.pastel".to_string(), &inc).unwrap_err();
    assert_eq!(e.kind, ErrorKind::CircularInclude);
    assert!(e.message.contains("circular include"));
    assert_eq!(visited.len(), 2);
}

#[test]
fn include_errors_name_the_path() {
    let inc = incl("./gone.pastel", None);
    let e = resolve_error(&inc, "not found");
    assert_eq!(e.kind, ErrorKind::IncludeError);
    assert_eq!(e.message, "cannot resolve include './gone.pastel': not found");
    let e = read_error(&inc, "denied");
    assert_eq!(e.kind, ErrorKind::IncludeError);
    assert_eq!(e.message, "cannot read './gone.pastel': denied");
}

#[test]
fn analyze_without_base_dir_still_works() {
    let source = r#"
        let color = #00FF00
        frame box { fill = color }
    "#;
    let tokens = pastel::lexer::Lexer::new(source).tokenize().expect("lex");
    let program = pastel::parser::Parser::new(tokens).parse().expect("parse");
    let ir = pastel::semantic::SemanticAnalyzer::new().analyze(&program).expect("ok");
    assert_eq!(ir.nodes.len(), 1);
}

// ── Components ──────────────────────────────────────────────────────────

#[test]
fn component_default_and_override() {
    let src = "component swatch(color = #FF0000) { frame { fill = color } }\nuse swatch()\nuse swatch(color = #0000FF)";
    let ir = compile(src).unwrap();
    assert_eq!(ir.nodes.len(), 2);
    let a = solid(&ir, 0);
    let b = solid(&ir, 1);
    assert_eq!((a.r, a.g, a.b), (255, 0, 0));
    assert_eq!((b.r, b.g, b.b), (0, 0, 255));
}

// ── Gradients ───────────────────────────────────────────────────────────

#[test]
fn even_gradient_stops_span_whole_range() {
    let ir = compile("frame a { fill = linear-gradient(90, #FF0000, #00FF00, #0000FF) }").unwrap();
    match &ir.nodes[0].data {
        IrNodeData::Frame(f) => match &f.visual.fill {
            Some(Fill::LinearGradient { stops, .. }) => {
                assert_eq!(stops.len(), 3);
                assert_eq!(stops[0].position.to_text(), "0");
                assert_eq!(stops[1].position.to_text(), "50");
                assert_eq!(stops[2].position.to_text(), "100");
            }
            _ => panic!("expected linear gradient"),
        },
        _ => panic!("expected frame"),
    }
}

// ── Colors and weights ──────────────────────────────────────────────────

#[test]
fn hex_round_trip() {
    let c = Color::from_hex("#12AB34").unwrap();
    assert_eq!((c.r, c.g, c.b, c.a), (0x12, 0xAB, 0x34, 255));
    assert_eq!(c.to_hex(), "#12AB34");
    let t = Color::from_hex("#12AB3480").unwrap();
    assert_eq!(t.to_hex(), "#12AB3480");
    assert!(Color::from_hex("#FFF").is_none());
    assert!(Color::from_hex("#12").is_none());
    assert!(Color::transparent().is_transparent());
}

#[test]
fn font_weight_css_values() {
    assert_eq!(FontWeight::from_str("bold").unwrap().to_css_value(), 700);
    assert_eq!(FontWeight::from_str("semibold").unwrap().to_css_value(), 600);
    assert!(FontWeight::from_str("heavy-ish").is_none());
}

// ── HTML and React ──────────────────────────────────────────────────────

#[test]
fn escape_html_replaces_markup() {
    assert_eq!(escape_html("<b>Tom & Jerry</b>"), "&lt;b&gt;Tom &amp; Jerry&lt;/b&gt;");
}

#[test]
fn html_page_for_simple_document() {
    let ir = compile("canvas \"demo\" { width = 400, height = 300 }\nframe box { width = 100, fill = #FF0000 }").unwrap();
    let html = generate_html(&ir);
    assert!(html.starts_with("<!DOCTYPE html>\n<html lang=\"en\">"));
    assert!(html.contains("<title>demo</title>"));
    assert!(html.contains("body { background: #FFFFFF; width: 400px; min-height: 300px;"));
    assert!(html.contains("<body>\n    <div style=\"width:100px;background:#FF0000\">\n    </div>\n</body>"));
}

#[test]
fn html_text_is_escaped() {
    let ir = compile("text \"a < b\" { size = 12 }").unwrap();
    let html = generate_html(&ir);
    assert!(html.contains("<span style=\"font-size:12px\">a &lt; b</span>"));
}

#[test]
fn pascal_case_joins_words() {
    assert_eq!(pascal_case("hello-world_app"), "HelloWorldApp");
    assert_eq!(pascal_case("my  LANDING page"), "MyLandingPage");
    assert_eq!(pascal_case(""), "");
}

#[test]
fn react_component_wraps_body() {
    let ir = compile("canvas \"my-card\" { width = 200, height = 100 }\nframe box { width = 10 }").unwrap();
    assert!(can_generate_react(&ir));
    let (component, css) = generate_react(&ir);
    assert!(component.starts_with("import './tokens.css';\n\nexport function MyCard() {"));
    assert!(component.contains("<div style=\"width:10px\">"));
    assert_eq!(css, ":root {\n}");
}

#[test]
fn format_names_parse() {
    assert!(matches!(Format::parse_str("html"), Some(Format::Html)));
    assert!(matches!(Format::parse_str("react"), Some(Format::React)));
    assert!(matches!(Format::parse_str("tokens"), Some(Format::Tokens)));
    assert!(Format::parse_str("svg").is_none());
}

// ── Summaries ───────────────────────────────────────────────────────────

#[test]
fn plan_of_simple_document() {
    let ir = compile("canvas \"demo\" { width = 400, height = 300 }\nframe box { width = 100, height = 50 }").unwrap();
    let plan = plan_text(&ir);
    assert!(plan.starts_with("Document: demo (400x300)\n"));
    assert!(plan.contains("└── frame box (100x50)"));
    assert!(plan.contains("Assets: 0  Nodes: 1  Pages: 1"));
}

#[test]
fn describe_long_text_is_cut() {
    let ir = compile("text \"abcdefghijklmnopqrstuvwxyz0123456789\" { size = 14, weight = bold }").unwrap();
    assert_eq!(describe_node(&ir.nodes[0]), "text \"abcdefghijklmnopqrstuvwxyz0...\" (14px, bold)");
}

#[test]
fn node_count_includes_children_and_pages() {
    let ir = compile("frame a { frame b { text \"x\" {} } }\npage \"p\" { frame c {} }").unwrap();
    assert_eq!(total_nodes(&ir), 4);
}

#[test]
fn inspect_shows_document_header() {
    let ir = compile("canvas \"demo\" { width = 400, height = 300 }").unwrap();
    let text = inspect_text(&ir);
    assert!(text.contains("Document: demo"));
    assert!(text.contains("Canvas:"));
}

// ── Formatter ───────────────────────────────────────────────────────────

#[test]
fn format_tokens_and_pages() {
    let program = parse_source("token spacing { sm = 8 }\npage \"home\" { frame a { width = 1 } }").unwrap();
    let out = Formatter::new().format(&program);
    assert!(out.contains("token spacing {\n    sm = 8\n}"));
    assert!(out.contains("page \"home\" {"));
}

// ── Lint ────────────────────────────────────────────────────────────────

#[test]
fn lint_reports_color_outside_tokens() {
    let ir = compile("token colors { primary = #0066FF }\nframe card { fill = #0065FE }").unwrap();
    let report = lint_document(&ir, "design.pastel");
    assert_eq!(report.violations.len(), 1);
    let v = &report.violations[0];
    assert_eq!(v.node, "card");
    assert_eq!(v.rule, "color-from-token");
    assert_eq!(v.message, "fill color #0065FE is not in token colors");
    assert_eq!(v.suggestion.as_deref(), Some("use #0066FF"));
    let text = report.format_text();
    assert!(text.contains("1 violation(s) found"));
}

#[test]
fn lint_without_tokens_reports_nothing() {
    let ir = compile("frame card { fill = #0065FE, padding = 13 }").unwrap();
    let report = lint_document(&ir, "design.pastel");
    assert!(report.violations.is_empty());
    assert_eq!(report.format_text(), "  All design values match token definitions\n");
}

#[test]
fn lint_padding_off_scale() {
    let ir = compile("token spacing { sm = 12, md = 16 }\nframe card { padding = 13 }").unwrap();
    let report = lint_document(&ir, "d.pastel");
    assert_eq!(report.violations.len(), 1);
    assert_eq!(report.violations[0].message, "padding 13px is not on spacing scale");
    assert_eq!(report.violations[0].suggestion.as_deref(), Some("use 12px"));
}

#[test]
fn dimension_fill_in_html() {
    let ir = compile("frame a { width = fill, height = hug }").unwrap();
    match &ir.nodes[0].data {
        IrNodeData::Frame(f) => {
            assert!(matches!(f.width, Some(Dimension::Fill)));
            assert!(matches!(f.height, Some(Dimension::Hug)));
        }
        _ => panic!("expected frame"),
    }
    assert!(generate_html(&ir).contains("width:100%;height:fit-content"));
}

// ── Export plan ─────────────────────────────────────────────────────────

#[test]
fn export_ios_image_sets() {
    let ir = compile("page \"home\" { frame a {} }\npage \"about\" { frame b {} }").unwrap();
    let images = export_plan(&ir, "ios").unwrap();
    assert_eq!(images.len(), 6);
    assert_eq!(images[0].dir, "home.imageset");
    assert_eq!(images[0].file, "home.png");
    assert_eq!(images[1].file, "home@2x.png");
    assert_eq!(images[2].scale_tenths, 30);
    assert_eq!(images[3].dir, "about.imageset");
    assert_eq!(images[5].page, 1);
}

#[test]
fn export_android_densities() {
    let ir = compile("page \"icon\" { frame a {} }").unwrap();
    let images = export_plan(&ir, "android").unwrap();
    let dirs: Vec<&str> = images.iter().map(|i| i.dir.as_str()).collect();
    assert_eq!(dirs, vec!["drawable-mdpi", "drawable-hdpi", "drawable-xhdpi", "drawable-xxhdpi", "drawable-xxxhdpi"]);
    assert_eq!(images[1].scale_tenths, 15);
    assert!(images.iter().all(|i| i.file == "icon.png"));
}

#[test]
fn export_errors() {
    let ir = compile("frame a {}").unwrap();
    assert_eq!(export_plan(&ir, "ios").unwrap_err(), "no pages found — each page becomes an icon asset");
    let ir = compile("page \"p\" { frame a {} }").unwrap();
    assert_eq!(export_plan(&ir, "web").unwrap_err(), "unsupported platform: 'web' (available: ios, android)");
}

// ── Lint laws on concrete values ────────────────────────────────────────

#[test]
fn lint_design_on_tokens_passes() {
    let src = "token colors { primary = #0066FF, text = #111827 }\ntoken spacing { sm = 8, md = 16 }\ntoken radius { md = 8 }\nframe card { fill = colors.primary, padding = [8, 16], radius = radius.md, layout = vertical, gap = spacing.sm\n text \"hi\" { color = colors.text } }";
    let ir = compile(src).unwrap();
    let report = lint_document(&ir, "d.pastel");
    assert!(report.violations.is_empty());
}

#[test]
fn closest_prefers_first_of_equally_near() {
    let scale = vec![Decimal::from_int(12), Decimal::from_int(16), Decimal::from_int(20)];
    assert_eq!(closest_num(Decimal::from_int(14), &scale).truncate(), 12);
    assert_eq!(closest_num(Decimal::from_int(19), &scale).truncate(), 20);
    assert_eq!(closest_num(Decimal::from_int(5), &[]).truncate(), 5);
}

#[test]
fn token_keys_may_be_node_words() {
    let src = "token colors {\n    primary    = #0066FF\n    text       = #111827\n    text-muted = #6B7280\n}\ntext \"t\" { color = colors.text }";
    let ir = compile(src).unwrap();
    let keys: Vec<&str> = ir.tokens[0].entries.iter().map(|e| e.key.as_str()).collect();
    assert_eq!(keys, vec!["primary", "text", "text-muted"]);
    match &ir.nodes[0].data {
        IrNodeData::Text(t) => assert_eq!(t.color.unwrap().to_hex(), "#111827"),
        _ => panic!("expected text"),
    }
}

#[test]
fn let_program_reads_back_from_its_text() {
    let src = "let a = [1, -2, \"x y\"]\nlet b = linear-gradient(90, #FF0000, #00FF00)\nlet c = { size = 16, weight = bold }\nlet d = true";
    let program = parse_source(src).unwrap();
    let text = Formatter::new().format(&program);
    assert_eq!(
        text,
        "let a = [1, -2, \"x y\"]\n\nlet b = linear-gradient(90, #FF0000, #00FF00)\n\nlet c = { size = 16, weight = bold }\n\nlet d = true\n"
    );
    let again = parse_source(&text).unwrap();
    assert_eq!(again.variables.len(), 4);
    for (x, y) in program.variables.iter().zip(again.variables.iter()) {
        assert_eq!(x.name, y.name);
        assert_eq!(format!("{:?}", x.value), format!("{:?}", y.value));
    }
    assert_eq!(Formatter::new().format(&again), text);
}

#[test]
fn token_file_reads_back_from_its_text() {
    let src = "include \"./base.pastel\" as base\nasset logo = image(\"./logo.svg\")\ntoken colors {\n  primary = #0066FF\n  text = #111827\n}\ntoken shadow { md = [0, 4, 12, #0000001A] }\nlet accent = colors.primary";
    let program = parse_source(src).unwrap();
    let text = Formatter::new().format(&program);
    let again = parse_source(&text).unwrap();
    assert_eq!(again.includes[0].path, "./base.pastel");
    assert_eq!(again.includes[0].namespace.as_deref(), Some("base"));
    assert_eq!(again.assets[0].kind, "image");
    assert_eq!(again.token_blocks.len(), 2);
    assert_eq!(again.token_blocks[0].entries[1].key, "text");
    assert_eq!(again.variables[0].name, "accent");
    assert_eq!(Formatter::new().format(&again), text);
}

#[test]
fn nodes_components_and_pages_read_back_from_their_text() {
    let src = "canvas \"app\" { width = 1440, height = 900 }\ncomponent card(title, pad = 16) { frame box { padding = pad\n text \"Title\" { size = 20 } } }\nframe header { layout = horizontal\n text \"Hello\" { size = 32, weight = bold }\n image logo { width = 120 }\n shape dot {} }\npage \"Home\" { frame main { gap = 8 } text { size = 12 } }";
    let program = parse_source(src).unwrap();
    let text = Formatter::new().format(&program);
    assert!(text.contains("component card(title, pad = 16) {\n    frame box {\n        padding = pad\n        text \"Title\" { size = 20 }\n    }\n}\n"));
    assert!(text.contains("    shape dot {}\n"));
    let again = parse_source(&text).unwrap();
    let canvas = again.canvas.as_ref().unwrap();
    assert_eq!(canvas.name, "app");
    assert_eq!(canvas.attrs.len(), 2);
    assert_eq!(again.components[0].name, "card");
    assert_eq!(again.components[0].params.len(), 2);
    assert_eq!(again.components[0].params[1].name, "pad");
    assert!(again.components[0].params[1].default.is_some());
    assert_eq!(again.nodes.len(), 1);
    assert_eq!(again.nodes[0].name.as_deref(), Some("header"));
    assert_eq!(again.nodes[0].children.len(), 3);
    assert_eq!(again.nodes[0].children[0].label.as_deref(), Some("Hello"));
    assert_eq!(again.nodes[0].children[0].attrs.len(), 2);
    assert_eq!(again.pages[0].name, "Home");
    assert_eq!(again.pages[0].nodes.len(), 2);
    assert_eq!(Formatter::new().format(&again), text);
}

#[test]
fn numbers_with_fractions_read_back_from_their_text() {
    let src = "let a = 0.5\nlet b = -2.0\nlet c = [1.25, 100.05]\nframe box { opacity = 0.75 }";
    let program = parse_source(src).unwrap();
    let text = Formatter::new().format(&program);
    assert_eq!(
        text,
        "let a = 0.5\n\nlet b = -2.0\n\nlet c = [1.25, 100.05]\n\nframe box {\n    opacity = 0.75\n}\n"
    );
    let again = parse_source(&text).unwrap();
    for (x, y) in program.variables.iter().zip(again.variables.iter()) {
        assert_eq!(format!("{:?}", x.value), format!("{:?}", y.value));
    }
    assert_eq!(Formatter::new().format(&again), text);
}

#[test]
fn even_gradient_stops_ascend() {
    let ir = compile("frame a { fill = radial-gradient(#FF0000, #00FF00, #0000FF, #FFFFFF) }").unwrap();
    match &ir.nodes[0].data {
        IrNodeData::Frame(f) => match &f.visual.fill {
            Some(Fill::RadialGradient { stops, .. }) => {
                let texts: Vec<String> = stops.iter().map(|s| s.position.to_text()).collect();
                assert_eq!(texts, vec!["0", "33.333333333333333", "66.666666666666666", "100"]);
                for w in stops.windows(2) {
                    assert!(w[0].position.scaled_value() <= w[1].position.scaled_value());
                }
            }
            _ => panic!("expected radial gradient"),
        },
        _ => panic!("expected frame"),
    }
}

#[test]
fn font_weights_and_formats_use_unicode_lower_case() {
    assert_eq!(FontWeight::from_str("blac\u{212A}"), Some(FontWeight::Black));
    assert_eq!(FontWeight::from_str("BOLD"), Some(FontWeight::Bold));
    assert_eq!(FontWeight::from_lower("semi-bold"), Some(FontWeight::Semibold));
    assert!(matches!(Format::parse_str("to\u{212A}ens"), Some(Format::Tokens)));
    assert!(matches!(Format::parse_str("HTML"), Some(Format::Html)));
    assert!(Format::parse_str("svg").is_none());
}

#[test]
fn bare_include_refuses_a_clashing_asset() {
    let mut main = parse_source("asset a = image(\"./a.svg\")\nlet x = 1").unwrap();
    let lib = parse_source("asset a = image(\"./b.svg\")").unwrap();
    let e = merge_include(&mut main, lib, &incl("./lib.pastel", None)).unwrap_err();
    assert_eq!(e.kind, ErrorKind::DuplicateId);
    assert_eq!(e.message, "asset 'a' already defined (conflict from include './lib.pastel')");
    assert_eq!(e.hint.as_deref(), Some("use: include \"./lib.pastel\" as <namespace>"));
    assert_eq!(main.assets.len(), 1);
    assert_eq!(main.assets[0].path, "./a.svg");
    assert_eq!(main.variables.len(), 1);
}

#[test]
fn named_texts_and_uses_read_back_from_their_text() {
    let src = "component btn(label, size = 14) { text \"x\" { size = size } }\nframe bar {\n text \"Heading\" title { size = 20 }\n use btn(\"Go\", size = 16)\n}";
    let program = parse_source(src).unwrap();
    let text = Formatter::new().format(&program);
    assert!(text.contains("    text \"Heading\" title { size = 20 }\n"));
    assert!(text.contains("    use btn(\"Go\", size = 16)\n"));
    let again = parse_source(&text).unwrap();
    let bar = &again.nodes[0];
    assert_eq!(bar.children[0].name.as_deref(), Some("title"));
    assert_eq!(bar.children[0].label.as_deref(), Some("Heading"));
    assert_eq!(bar.children[1].name.as_deref(), Some("btn"));
    assert_eq!(bar.children[1].label.as_deref(), Some("Go"));
    assert_eq!(bar.children[1].attrs.len(), 2);
    assert_eq!(bar.children[1].attrs[0].key, "__arg_0");
    assert_eq!(bar.children[1].attrs[1].key, "size");
    assert_eq!(Formatter::new().format(&again), text);
}

#[test]
fn inline_width_counts_bytes() {
    let src = "text \"t\" { font = \"\u{e9}\u{e9}\u{e9}\u{e9}\u{e9}\u{e9}\u{e9}\u{e9}\u{e9}\u{e9}\u{e9}\u{e9}\u{e9}\u{e9}\u{e9}\u{e9}\u{e9}\u{e9}\u{e9}\u{e9}\u{e9}\u{e9}\u{e9}\u{e9}\u{e9}\u{e9}\" }";
    let program = parse_source(src).unwrap();
    let text = Formatter::new().format(&program);
    assert!(text.starts_with("text \"t\" {\n    font = \""));
}

#[test]
fn pascal_case_uses_unicode_case() {
    assert_eq!(pascal_case("\u{e9}lan-page"), "\u{c9}lanPage");
    assert_eq!(pascal_case("my-APP"), "MyApp");
}

#[test]
fn plan_cuts_texts_by_bytes() {
    let mut content = String::from("a");
    for _ in 0..15 {
        content.push('\u{e9}');
    }
    let ir = compile(&format!("text \"{}\" {{ size = 14 }}", content)).unwrap();
    let mut cut = String::from("a");
    for _ in 0..13 {
        cut.push('\u{e9}');
    }
    assert_eq!(describe_node(&ir.nodes[0]), format!("text \"{}...\" (14px)", cut));
    assert!(can_plan(&ir));
    let odd = compile("text \"abcdefghijklmnopqrstuvwxyz\u{e9}\u{e9}\u{e9}\" { }").unwrap();
    assert!(!can_plan(&odd));
}

#[test]
fn tokens_end_with_one_eof_at_the_end() {
    let src = "frame a {\n  width = 10 // note\n}\n";
    let mut lexer = pastel::lexer::Lexer::new(src);
    let ts = lexer.tokenize().unwrap();
    let n = ts.len();
    assert!(matches!(ts[n - 1].kind, pastel::token::TokenKind::Eof));
    assert_eq!(ts[n - 1].span.start, src.chars().count());
    assert_eq!(ts[n - 1].span.end, src.chars().count());
    for i in 0..n {
        assert!(ts[i].span.start <= ts[i].span.end);
        if i + 1 < n {
            assert!(!matches!(ts[i].kind, pastel::token::TokenKind::Eof));
            assert!(ts[i].span.end <= ts[i + 1].span.start);
            assert!(ts[i].span.line <= ts[i + 1].span.line);
        }
    }
}

#[test]
fn ios_imageset_lists_its_three_images() {
    let c = pastel::export::ios_contents("home");
    let files: Vec<&str> = c.images.iter().map(|i| i.filename.as_str()).collect();
    assert_eq!(files, vec!["home.png", "home@2x.png", "home@3x.png"]);
    let scales: Vec<&str> = c.images.iter().map(|i| i.scale.as_str()).collect();
    assert_eq!(scales, vec!["1x", "2x", "3x"]);
    assert!(c.images.iter().all(|i| i.idiom == "universal"));
    assert_eq!(c.author, "pastel");
    assert_eq!(c.version, 1);
}

#[test]
fn dotted_references_read_back_from_their_text() {
    let src = "let accent = colors.primary\nframe card { fill = brand.primary_dark, stroke = [1, colors.border] }";
    let program = parse_source(src).unwrap();
    let text = Formatter::new().format(&program);
    assert!(text.contains("let accent = colors.primary\n"));
    assert!(text.contains("fill = brand.primary_dark"));
    assert!(text.contains("stroke = [1, colors.border]"));
    let again = parse_source(&text).unwrap();
    assert_eq!(format!("{:?}", again.variables[0].value), format!("{:?}", program.variables[0].value));
    assert_eq!(
        format!("{:?}", again.nodes[0].attrs[0].value),
        format!("{:?}", program.nodes[0].attrs[0].value)
    );
    assert_eq!(
        format!("{:?}", again.nodes[0].attrs[1].value),
        format!("{:?}", program.nodes[0].attrs[1].value)
    );
    assert_eq!(Formatter::new().format(&again), text);
}

#[test]
fn font_weight_ignores_the_case_of_ascii_names() {
    for name in ["Thin", "LIGHT", "Regular", "SEMI-BOLD", "ExtraBold", "bLaCk", "Heavy"] {
        let lowered = name.to_lowercase();
        assert_eq!(FontWeight::from_str(name), FontWeight::from_str(&lowered));
    }
    assert_eq!(FontWeight::from_str("SEMI-BOLD"), Some(FontWeight::Semibold));
    assert_eq!(FontWeight::from_str("Heavy"), None);
}
