use joinerator::joinerator::{GeneratorFrequency, GeneratorOptions, Joinerator, Options};
use joinerator::repertoire::{Glyph, GlyphPosition, Repertoire};

const ACUTE: char = '\u{301}';
const GRAVE: char = '\u{300}';
const MACRON_BELOW: char = '\u{331}';
const TILDE_OVERLAY: char = '\u{334}';

fn glyph(codepoint: char, position: GlyphPosition, pattern: &str) -> Glyph {
    Glyph::new(codepoint, position, pattern).unwrap()
}

fn single_above() -> Repertoire {
    Repertoire::new(
        "test".to_string(),
        "one acute accent".to_string(),
        vec![glyph(ACUTE, GlyphPosition::ABOVE, "(?s).")],
    )
}

fn rich() -> Repertoire {
    Repertoire::new(
        "rich".to_string(),
        "a few marks".to_string(),
        vec![
            glyph(ACUTE, GlyphPosition::ABOVE, "(?s)."),
            glyph(GRAVE, GlyphPosition::ABOVE, "[a-z]"),
            glyph(MACRON_BELOW, GlyphPosition::BELOW, "(?s)."),
            glyph(TILDE_OVERLAY, GlyphPosition::THROUGH, "[A-Z]"),
        ],
    )
}

fn is_mark(c: char) -> bool {
    c == ACUTE || c == GRAVE || c == MACRON_BELOW || c == TILDE_OVERLAY
}

fn strip(s: &str) -> String {
    s.chars().filter(|c| !is_mark(*c)).collect()
}

fn gen(category: GlyphPosition, frequency: GeneratorFrequency, stacking: usize) -> GeneratorOptions {
    GeneratorOptions { category, frequency, stacking }
}

fn all_three(stacking: usize) -> Vec<GeneratorOptions> {
    vec![
        gen(GlyphPosition::ABOVE, GeneratorFrequency::Percentage { numerator: 60, denominator: 100 }, stacking),
        gen(GlyphPosition::BELOW, GeneratorFrequency::Percentage { numerator: 60, denominator: 100 }, stacking),
        gen(GlyphPosition::THROUGH, GeneratorFrequency::Fixed(3), stacking),
    ]
}

#[test]
fn one_acute_on_hi() {
    let rep = single_above();
    let options = Options {
        allow_unreadable: false,
        limit: None,
        repertoire: &rep,
        generator: vec![gen(GlyphPosition::ABOVE, GeneratorFrequency::Fixed(1), 1)],
    };
    let mut engine = Joinerator::new(options);
    for _ in 0..50 {
        let out = engine.process("hi");
        assert_eq!(out.chars().count(), 3);
        assert_eq!(out.chars().filter(|c| *c == ACUTE).count(), 1);
        assert_eq!(strip(&out), "hi");
    }
}

#[test]
fn limit_equal_to_length_is_identity() {
    let rep = single_above();
    let options = Options {
        allow_unreadable: false,
        limit: Some(2),
        repertoire: &rep,
        generator: vec![gen(GlyphPosition::ABOVE, GeneratorFrequency::Fixed(1), 1)],
    };
    let mut engine = Joinerator::new(options);
    assert_eq!(engine.process("hi"), "hi");
}

#[test]
fn half_of_ten_characters_is_five() {
    let half = GeneratorFrequency::Percentage { numerator: 1, denominator: 2 };
    assert_eq!(half.realize(10), 5);
    assert_eq!(GeneratorFrequency::Percentage { numerator: 60, denominator: 100 }.realize(10), 6);
    assert_eq!(GeneratorFrequency::Percentage { numerator: 1, denominator: 3 }.realize(10), 3);
    assert_eq!(GeneratorFrequency::Fixed(7).realize(10), 7);

    // One pass of that target puts exactly five marks on ten characters.
    let rep = single_above();
    let options = Options {
        allow_unreadable: true,
        limit: None,
        repertoire: &rep,
        generator: vec![gen(GlyphPosition::ABOVE, half, 1)],
    };
    let mut engine = Joinerator::new(options);
    let out = engine.process("abcdefghij");
    assert_eq!(out.chars().filter(|c| *c == ACUTE).count(), 5);
    assert_eq!(out.chars().count(), 15);
}

#[test]
fn tight_budget_returns_input() {
    let rep = rich();
    for limit in 0..=11 {
        let options = Options {
            allow_unreadable: true,
            limit: Some(limit),
            repertoire: &rep,
            generator: all_three(4),
        };
        let mut engine = Joinerator::new(options);
        assert_eq!(engine.process("Hello world"), "Hello world");
    }
}

#[test]
fn budget_caps_result_length() {
    let rep = rich();
    for limit in 12..40 {
        let options = Options {
            allow_unreadable: true,
            limit: Some(limit),
            repertoire: &rep,
            generator: all_three(5),
        };
        let mut engine = Joinerator::new(options);
        let out = engine.process("Hello world");
        assert!(out.chars().count() <= limit);
        assert_eq!(strip(&out), "Hello world");
    }
}

#[test]
fn no_limit_adds_only_marks() {
    let rep = rich();
    let options = Options {
        allow_unreadable: true,
        limit: None,
        repertoire: &rep,
        generator: all_three(2),
    };
    let mut engine = Joinerator::new(options);
    let input = "Hello World";
    let out = engine.process(input);
    let marks = out.chars().filter(|c| is_mark(*c)).count();
    assert_eq!(out.chars().count(), input.chars().count() + marks);
    assert!(out.chars().count() >= input.chars().count());
    // Every glyph list is non-empty and unreadable combinations are allowed, so
    // each pass lands in full: 2 x 6 above, 2 x 6 below, 2 x 3 through.
    assert_eq!(marks, 30);
}

#[test]
fn zero_stacking_disables_categories() {
    let rep = rich();
    let options = Options {
        allow_unreadable: true,
        limit: None,
        repertoire: &rep,
        generator: all_three(0),
    };
    let mut engine = Joinerator::new(options);
    assert_eq!(engine.process("Nothing changes"), "Nothing changes");
}

#[test]
fn empty_generator_leaves_input() {
    let rep = rich();
    let options = Options { allow_unreadable: false, limit: None, repertoire: &rep, generator: vec![] };
    let mut engine = Joinerator::new(options);
    assert_eq!(engine.process("plain"), "plain");
    assert_eq!(engine.process(""), "");
}

#[test]
fn marks_respect_applicability() {
    let rep = Repertoire::new(
        "lower".to_string(),
        "marks for lowercase letters only".to_string(),
        vec![glyph(GRAVE, GlyphPosition::ABOVE, "[a-z]")],
    );
    let options = Options {
        allow_unreadable: false,
        limit: None,
        repertoire: &rep,
        generator: vec![gen(GlyphPosition::ABOVE, GeneratorFrequency::Percentage { numerator: 1, denominator: 1 }, 3)],
    };
    let mut engine = Joinerator::new(options);
    let out: Vec<char> = engine.process("aB1c").chars().collect();
    let mut base = ' ';
    for c in &out {
        if *c == GRAVE {
            assert!(base.is_ascii_lowercase());
        } else {
            base = *c;
        }
    }
    // Every pass covers all four characters; only `a` and `c` take marks.
    assert_eq!(out.iter().filter(|c| **c == GRAVE).count(), 6);
}

#[test]
fn unreadable_ignores_applicability() {
    let rep = Repertoire::new(
        "lower".to_string(),
        "marks for lowercase letters only".to_string(),
        vec![glyph(GRAVE, GlyphPosition::ABOVE, "[a-z]")],
    );
    let options = Options {
        allow_unreadable: true,
        limit: None,
        repertoire: &rep,
        generator: vec![gen(GlyphPosition::ABOVE, GeneratorFrequency::Fixed(4), 2)],
    };
    let mut engine = Joinerator::new(options);
    let out = engine.process("AB12");
    assert_eq!(out.chars().filter(|c| *c == GRAVE).count(), 8);
}

#[test]
fn category_without_glyphs_adds_nothing() {
    let rep = single_above();
    let options = Options {
        allow_unreadable: true,
        limit: None,
        repertoire: &rep,
        generator: vec![gen(GlyphPosition::BELOW, GeneratorFrequency::Fixed(5), 3)],
    };
    let mut engine = Joinerator::new(options);
    assert_eq!(engine.process("abcde"), "abcde");
}

#[test]
fn order_of_base_characters_is_kept() {
    let rep = rich();
    let options = Options {
        allow_unreadable: false,
        limit: None,
        repertoire: &rep,
        generator: all_three(3),
    };
    let mut engine = Joinerator::new(options);
    for input in ["Zalgo Text", "ünïcødé ✓", "", "x"] {
        let out = engine.process(input);
        assert_eq!(strip(&out), input);
        // Each base character is followed only by marks.
        let first = out.chars().next();
        assert_eq!(first, input.chars().next());
    }
}

#[test]
fn limit_scales_passes_to_the_budget() {
    let rep = single_above();
    // Target 10 per pass, 3 passes: 30 planned marks against a budget of 6, so
    // each pass selects floor(10 * 6 / 30) = 2 positions.
    let options = Options {
        allow_unreadable: true,
        limit: Some(16),
        repertoire: &rep,
        generator: vec![gen(GlyphPosition::ABOVE, GeneratorFrequency::Fixed(10), 3)],
    };
    let mut engine = Joinerator::new(options);
    let out = engine.process("abcdefghij");
    assert_eq!(out.chars().filter(|c| *c == ACUTE).count(), 6);
    assert_eq!(out.chars().count(), 16);
}

#[test]
fn fixed_count_above_length_selects_every_position() {
    let rep = single_above();
    let options = Options {
        allow_unreadable: true,
        limit: None,
        repertoire: &rep,
        generator: vec![gen(GlyphPosition::ABOVE, GeneratorFrequency::Fixed(100), 2)],
    };
    let mut engine = Joinerator::new(options);
    let out = engine.process("abc");
    let expected: String = "abc".chars().flat_map(|c| vec![c, ACUTE, ACUTE]).collect();
    assert_eq!(out, expected);
}

#[test]
fn applicability_of_a_glyph() {
    let g = glyph(GRAVE, GlyphPosition::ABOVE, "^[a-z]$");
    assert!(g.is_applicable('q'));
    assert!(!g.is_applicable('Q'));
    assert!(!g.is_applicable('é'));
    let any = glyph(ACUTE, GlyphPosition::ABOVE, "(?s).");
    assert!(any.is_applicable('\n'));
    assert!(any.is_applicable('✓'));
}

#[test]
fn invalid_rule_gives_no_glyph() {
    assert!(Glyph::new(ACUTE, GlyphPosition::ABOVE, "(unclosed").is_none());
    assert!(Glyph::new(ACUTE, GlyphPosition::ABOVE, "[").is_none());
    let g = Glyph::new(ACUTE, GlyphPosition::BELOW, "x").unwrap();
    assert_eq!(g.codepoint, ACUTE);
    assert_eq!(g.position, GlyphPosition::BELOW);
}

#[test]
fn engine_keeps_its_options() {
    let rep = single_above();
    let options = Options {
        allow_unreadable: true,
        limit: Some(9),
        repertoire: &rep,
        generator: vec![gen(GlyphPosition::ABOVE, GeneratorFrequency::Fixed(1), 1)],
    };
    let mut engine = Joinerator::new(options);
    let _ = engine.process("abc");
    assert_eq!(engine.options().limit, Some(9));
    assert!(engine.options().allow_unreadable);
    assert_eq!(engine.options().generator.len(), 1);
}
