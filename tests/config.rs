use joinerator::config::{ConfigError, parse_frequency, parse_stacking, validate_generator};
use joinerator::joinerator::{GeneratorFrequency, GeneratorOptions, Options};
use joinerator::repertoire::{GlyphPosition, Repertoire};

fn pct(numerator: u64, denominator: u64) -> Option<GeneratorFrequency> {
    Some(GeneratorFrequency::Percentage { numerator, denominator })
}

#[test]
fn stacking_accepts_non_negative_integers() {
    assert_eq!(parse_stacking("0"), Some(0));
    assert_eq!(parse_stacking("1"), Some(1));
    assert_eq!(parse_stacking("42"), Some(42));
    assert_eq!(parse_stacking("+7"), Some(7));
    assert_eq!(parse_stacking("007"), Some(7));
    assert_eq!(parse_stacking(&usize::MAX.to_string()), Some(usize::MAX));
}

#[test]
fn stacking_rejects_other_text() {
    assert_eq!(parse_stacking(""), None);
    assert_eq!(parse_stacking("+"), None);
    assert_eq!(parse_stacking("-1"), None);
    assert_eq!(parse_stacking("1.5"), None);
    assert_eq!(parse_stacking("three"), None);
    assert_eq!(parse_stacking(" 3"), None);
    assert_eq!(parse_stacking("99999999999999999999999"), None);
}

#[test]
fn frequency_reads_percentages() {
    assert_eq!(parse_frequency("60%"), pct(60, 100));
    assert_eq!(parse_frequency("10%"), pct(10, 100));
    assert_eq!(parse_frequency("100%"), pct(100, 100));
    assert_eq!(parse_frequency("12.5%"), pct(125, 1000));
    assert_eq!(parse_frequency("0.5%"), pct(5, 1000));
    assert_eq!(parse_frequency(".5%"), pct(5, 1000));
    assert_eq!(parse_frequency("5.%"), pct(5, 100));
    assert_eq!(parse_frequency("+50%"), pct(50, 100));
    assert_eq!(parse_frequency("100.0%"), pct(1000, 1000));
}

#[test]
fn frequency_rejects_out_of_range_percentages() {
    assert_eq!(parse_frequency("0%"), None);
    assert_eq!(parse_frequency("0.0%"), None);
    assert_eq!(parse_frequency("100.5%"), None);
    assert_eq!(parse_frequency("101%"), None);
    assert_eq!(parse_frequency("-5%"), None);
    assert_eq!(parse_frequency("%"), None);
    assert_eq!(parse_frequency(".%"), None);
    assert_eq!(parse_frequency("1.2.3%"), None);
    assert_eq!(parse_frequency("abc%"), None);
}

#[test]
fn frequency_reads_fixed_counts() {
    assert_eq!(parse_frequency("3"), Some(GeneratorFrequency::Fixed(3)));
    assert_eq!(parse_frequency("+12"), Some(GeneratorFrequency::Fixed(12)));
    assert_eq!(parse_frequency("0"), None);
    assert_eq!(parse_frequency(""), None);
    assert_eq!(parse_frequency("2.5"), None);
    assert_eq!(parse_frequency("x"), None);
}

#[test]
fn a_parsed_half_targets_five_of_ten() {
    let half = parse_frequency("50%").unwrap();
    assert_eq!(half.realize(10), 5);
    assert_eq!(parse_frequency("60%").unwrap().realize(11), 6);
}

fn entry(category: GlyphPosition, frequency: GeneratorFrequency) -> GeneratorOptions {
    GeneratorOptions { category, frequency, stacking: 1 }
}

#[test]
fn validation_accepts_default_configuration() {
    let rep = Repertoire::new("r".to_string(), "d".to_string(), vec![]);
    let options = Options {
        allow_unreadable: false,
        limit: None,
        repertoire: &rep,
        generator: vec![
            entry(GlyphPosition::ABOVE, GeneratorFrequency::Percentage { numerator: 60, denominator: 100 }),
            entry(GlyphPosition::BELOW, GeneratorFrequency::Percentage { numerator: 60, denominator: 100 }),
            entry(GlyphPosition::THROUGH, GeneratorFrequency::Fixed(1)),
        ],
    };
    assert_eq!(options.validate(), Ok(()));
    assert_eq!(validate_generator(&vec![]), Ok(()));
}

#[test]
fn validation_rejects_bad_frequencies() {
    let zero = vec![entry(GlyphPosition::ABOVE, GeneratorFrequency::Fixed(0))];
    assert_eq!(validate_generator(&zero), Err(ConfigError::InvalidFrequency));
    let above_one = vec![entry(
        GlyphPosition::ABOVE,
        GeneratorFrequency::Percentage { numerator: 3, denominator: 2 },
    )];
    assert_eq!(validate_generator(&above_one), Err(ConfigError::InvalidFrequency));
    let no_share = vec![entry(
        GlyphPosition::ABOVE,
        GeneratorFrequency::Percentage { numerator: 0, denominator: 2 },
    )];
    assert_eq!(validate_generator(&no_share), Err(ConfigError::InvalidFrequency));
}

#[test]
fn validation_rejects_repeated_categories() {
    let twice = vec![
        entry(GlyphPosition::BELOW, GeneratorFrequency::Fixed(1)),
        entry(GlyphPosition::ABOVE, GeneratorFrequency::Fixed(2)),
        entry(GlyphPosition::BELOW, GeneratorFrequency::Fixed(3)),
    ];
    assert_eq!(validate_generator(&twice), Err(ConfigError::DuplicateCategory));
}
