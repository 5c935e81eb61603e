//! Transformers that change the case of letters.
use vstd::prelude::*;
use crate::random::{coin, new_rng};
use crate::text::{append_str, chars_of, push_char};
use crate::transform::TransformError;

verus! {

/// What `str::to_uppercase` makes of a string.
pub uninterp spec fn upper_of(s: Seq<char>) -> Seq<char>;

/// What `str::to_lowercase` makes of a string.
pub uninterp spec fn lower_of(s: Seq<char>) -> Seq<char>;

/// What `char::to_uppercase` makes of one character.
pub uninterp spec fn char_upper_of(c: char) -> Seq<char>;

/// What `char::to_lowercase` makes of one character.
pub uninterp spec fn char_lower_of(c: char) -> Seq<char>;

/// Relies on str::to_uppercase: the Unicode uppercase mapping of each character.
#[verifier::external_body]
fn to_upper(s: &str) -> (r: String)
    ensures
        r@ == upper_of(s@),
{
    s.to_uppercase()
}

/// Relies on str::to_lowercase: the Unicode lowercase mapping of each character.
#[verifier::external_body]
fn to_lower(s: &str) -> (r: String)
    ensures
        r@ == lower_of(s@),
{
    s.to_lowercase()
}

/// Relies on char::to_uppercase: the uppercase mapping of one character.
#[verifier::external_body]
fn char_to_upper(c: char) -> (r: String)
    ensures
        r@ == char_upper_of(c),
{
    c.to_uppercase().collect()
}

/// Relies on char::to_lowercase: the lowercase mapping of one character.
#[verifier::external_body]
fn char_to_lower(c: char) -> (r: String)
    ensures
        r@ == char_lower_of(c),
{
    c.to_lowercase().collect()
}

/// A transformer that converts everything to uppercase.
pub struct TransformUpperCase {}

impl TransformUpperCase {
    pub fn new() -> Self {
        TransformUpperCase {  }
    }

    pub fn transform(&mut self, input: String) -> (r: Result<String, TransformError>)
        ensures
            r matches Ok(s) && s@ == upper_of(input@),
    {
        Ok(to_upper(input.as_str()))
    }
}

/// A transformer that converts everything to lowercase.
pub struct TransformLowerCase {}

impl TransformLowerCase {
    pub fn new() -> Self {
        TransformLowerCase {  }
    }

    pub fn transform(&mut self, input: String) -> (r: Result<String, TransformError>)
        ensures
            r matches Ok(s) && s@ == lower_of(input@),
    {
        Ok(to_lower(input.as_str()))
    }
}

/// `c` with the ASCII vowels a, e, i, o, u and y made uppercase.
pub open spec fn vowel_raised(c: char) -> char {
    if c == 'a' {
        'A'
    } else if c == 'e' {
        'E'
    } else if c == 'i' {
        'I'
    } else if c == 'o' {
        'O'
    } else if c == 'u' {
        'U'
    } else if c == 'y' {
        'Y'
    } else {
        c
    }
}

/// `s` with every lowercase ASCII vowel (y included) made uppercase.
pub open spec fn vowels_raised(s: Seq<char>) -> Seq<char> {
    s.map_values(|c: char| vowel_raised(c))
}

/// The pieces of `s`, each character in upper case where `coins` says so and in
/// lower case otherwise, joined in order.
pub open spec fn cased(s: Seq<char>, coins: Seq<bool>) -> Seq<char>
    decreases s.len(),
{
    if s.len() == 0 {
        Seq::empty()
    } else {
        let i = s.len() - 1;
        cased(s.drop_last(), coins) + if coins[i] {
            char_upper_of(s[i])
        } else {
            char_lower_of(s[i])
        }
    }
}

/// Puts each character of `s` in upper case where `coins` says so and in
/// lower case otherwise.
pub fn apply_case_choices(s: &Vec<char>, coins: &Vec<bool>) -> (r: String)
    requires
        coins@.len() == s@.len(),
    ensures
        r@ == cased(s@, coins@),
{
    let mut out = String::new();
    let mut i: usize = 0;
    while i < s.len()
        invariant
            i <= s@.len(),
            coins@.len() == s@.len(),
            out@ == cased(s@.subrange(0, i as int), coins@),
        decreases s@.len() - i,
    {
        let piece = if coins[i] {
            char_to_upper(s[i])
        } else {
            char_to_lower(s[i])
        };
        append_str(&mut out, piece.as_str());
        proof {
            assert(s@.subrange(0, i + 1).drop_last() =~= s@.subrange(0, i as int));
        }
        i = i + 1;
    }
    proof {
        assert(s@.subrange(0, i as int) =~= s@);
    }
    out
}

/// A transformer that puts each character in upper or lower case at random.
pub struct TransformRandomCase {
    random: rand::rngs::ThreadRng,
}

impl TransformRandomCase {
    pub fn new() -> Self {
        TransformRandomCase { random: new_rng() }
    }

    pub fn transform(&mut self, input: String) -> (r: Result<String, TransformError>)
        ensures
            r matches Ok(s) && exists|coins: Seq<bool>|
                coins.len() == input@.len() && s@ == cased(input@, coins),
    {
        let chars = chars_of(input.as_str());
        let mut coins: Vec<bool> = Vec::new();
        let mut i: usize = 0;
        while i < chars.len()
            invariant
                i <= chars@.len(),
                coins@.len() == i,
            decreases chars@.len() - i,
        {
            coins.push(coin(&mut self.random));
            i = i + 1;
        }
        let s = apply_case_choices(&chars, &coins);
        proof {
            assert(coins@.len() == input@.len() && s@ == cased(input@, coins@));
        }
        Ok(s)
    }
}

/// A transformer that makes only vowels uppercase.
pub struct TransformVowelCase {}

impl TransformVowelCase {
    pub fn new() -> Self {
        TransformVowelCase {  }
    }

    pub fn transform(&mut self, input: String) -> (r: Result<String, TransformError>)
        ensures
            r matches Ok(s) && s@ == vowels_raised(lower_of(input@)),
    {
        let lowered = to_lower(input.as_str());
        let chars = chars_of(lowered.as_str());
        let mut out = String::new();
        let mut i: usize = 0;
        while i < chars.len()
            invariant
                i <= chars@.len(),
                out@ == vowels_raised(chars@.subrange(0, i as int)),
            decreases chars@.len() - i,
        {
            let c = chars[i];
            let raised = if c == 'a' {
                'A'
            } else if c == 'e' {
                'E'
            } else if c == 'i' {
                'I'
            } else if c == 'o' {
                'O'
            } else if c == 'u' {
                'U'
            } else if c == 'y' {
                'Y'
            } else {
                c
            };
            push_char(&mut out, raised);
            proof {
                assert(vowels_raised(chars@.subrange(0, i + 1)) =~= vowels_raised(
                    chars@.subrange(0, i as int),
                ).push(raised));
            }
            i = i + 1;
        }
        proof {
            assert(chars@.subrange(0, i as int) =~= chars@);
        }
        Ok(out)
    }
}

} // verus!
