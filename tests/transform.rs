use joinerator::transform::casing::{
    TransformLowerCase, TransformRandomCase, TransformUpperCase, TransformVowelCase, apply_case_choices,
};
use joinerator::transform::uwu::TransformUwuize;
use joinerator::transform::{Transform, apply_all, get_transformer};

#[test]
fn uppercase_transformer() {
    let mut t = TransformUpperCase::new();
    assert_eq!(t.transform("Hello, wörld".to_string()).unwrap(), "HELLO, WÖRLD");
    assert_eq!(t.transform(String::new()).unwrap(), "");
}

#[test]
fn lowercase_transformer() {
    let mut t = TransformLowerCase::new();
    assert_eq!(t.transform("Hello, WÖRLD".to_string()).unwrap(), "hello, wörld");
}

#[test]
fn vowel_case_transformer() {
    let mut t = TransformVowelCase::new();
    assert_eq!(t.transform("Hello World, Mystery".to_string()).unwrap(), "hEllO wOrld, mYstErY");
}

#[test]
fn case_choices_follow_coins() {
    let chars: Vec<char> = "abCD".chars().collect();
    assert_eq!(apply_case_choices(&chars, &vec![true, false, true, false]), "AbCd");
    assert_eq!(apply_case_choices(&chars, &vec![false, true, false, true]), "aBcD");
    let sharp: Vec<char> = "ß".chars().collect();
    assert_eq!(apply_case_choices(&sharp, &vec![true]), "SS");
}

#[test]
fn random_case_keeps_letters() {
    let mut t = TransformRandomCase::new();
    let out = t.transform("Random Case Text".to_string()).unwrap();
    assert_eq!(out.to_lowercase(), "random case text");
}

#[test]
fn uwuize_transformer() {
    let mut t = TransformUwuize::new();
    assert_eq!(t.transform("I love you".to_string()).unwrap(), "I wuv you");
    assert_eq!(t.transform("butter".to_string()).unwrap(), "budder");
    assert_eq!(t.transform("oh no".to_string()).unwrap(), "owh no");
    assert_eq!(t.transform("not".to_string()).unwrap(), "nawt");
}

#[test]
fn transformers_by_name() {
    assert!(matches!(get_transformer("upper"), Some(Transform::UpperCase(_))));
    assert!(matches!(get_transformer("uppercase"), Some(Transform::UpperCase(_))));
    assert!(matches!(get_transformer("lower"), Some(Transform::LowerCase(_))));
    assert!(matches!(get_transformer("lowercase"), Some(Transform::LowerCase(_))));
    assert!(matches!(get_transformer("randomcase"), Some(Transform::RandomCase(_))));
    assert!(matches!(get_transformer("uwuize"), Some(Transform::Uwuize(_))));
    assert!(get_transformer("sideways").is_none());
    assert!(get_transformer("").is_none());
}

#[test]
fn dispatch_runs_the_named_transformer() {
    let mut t = get_transformer("upper").unwrap();
    assert_eq!(t.transform("abc".to_string()).unwrap(), "ABC");
    let mut t = Transform::VowelCase(TransformVowelCase::new());
    assert_eq!(t.transform("AEIOUY".to_string()).unwrap(), "AEIOUY");
}

#[test]
fn transformers_apply_in_order() {
    let mut chain = vec![get_transformer("uwuize").unwrap(), get_transformer("upper").unwrap()];
    assert_eq!(apply_all(&mut chain, "I love you".to_string()).unwrap(), "I WUV YOU");
    let mut reversed = vec![get_transformer("lower").unwrap(), Transform::VowelCase(TransformVowelCase::new())];
    assert_eq!(apply_all(&mut reversed, "HELLO".to_string()).unwrap(), "hEllO");
    let mut none: Vec<Transform> = vec![];
    assert_eq!(apply_all(&mut none, "same".to_string()).unwrap(), "same");
}

#[test]
fn uwuize_patterns_all_compile() {
    let t = TransformUwuize::new();
    let mut wrapped = Transform::Uwuize(t);
    assert!(wrapped.transform("tt".to_string()).is_ok());
}
