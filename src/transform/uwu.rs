//! A transformer that "uwu-izes" text with a fixed list of substitutions.
use vstd::prelude::*;
use crate::matcher::{Matcher, compile, regex_compiles, regex_replace_all, replace_all};
use crate::transform::TransformError;

verus! {

/// The number of substitutions.
pub const UWU_RULE_COUNT: usize = 20;

/// The substitutions, in the order they apply: a regular expression and what
/// each of its matches is replaced with.
pub open spec fn uwu_rules() -> Seq<(Seq<char>, Seq<char>)> {
    seq![
        ("(?i)([aeuio])cky\\b"@, "${1}cky-w${1}cky"@),
        ("(?i)\\b(f)(u)"@, "${1}w${2}"@),
        ("(?i)\\blo+ve\\b"@, "wuv"@),
        ("(?i)\\b(n)o(t)\\b"@, "${1}aw${2}"@),
        ("(?i)\\bwould\\b"@, "wud"@),
        ("(?i)\\b(c)al(l)"@, "${1}aw${2}"@),
        ("(?i)\\bl(i)"@, "w${1}"@),
        ("(?i)tt"@, "dd"@),
        ("(?i)e([r]+)y"@, "e${1}${1}y"@),
        ("(?i)\\bbu([t])"@, "bwu${1}"@),
        ("(?i)r\\B"@, "w${1}"@),
        ("(?i)loo"@, "woo"@),
        ("(?i)\\bwha"@, "wu"@),
        ("(?i)\\boh\\b"@, "owh"@),
        ("(?i)\\Bvy\\b"@, "vwy"@),
        ("(?i)\\bgod"@, "gawd"@),
        ("(?i)\\B(s)(es)\\b"@, "${1}i${2}"@),
        ("(?i)\\B(le)s\\b"@, "${1}z"@),
        ("(?i)\\bun\\B"@, "uwn"@),
        ("(?i)\\Bpos\\B"@, "paws"@),
    ]
}

/// `text` after each of `rules` in turn has replaced all of its matches.
pub open spec fn apply_rules(rules: Seq<(Seq<char>, Seq<char>)>, text: Seq<char>) -> Seq<char>
    decreases rules.len(),
{
    if rules.len() == 0 {
        text
    } else {
        regex_replace_all(
            rules.last().0,
            apply_rules(rules.drop_last(), text),
            rules.last().1,
        )
    }
}

/// The substitution at index `k`.
fn uwu_rule(k: usize) -> (r: (&'static str, &'static str))
    requires
        k < UWU_RULE_COUNT,
    ensures
        (r.0@, r.1@) == uwu_rules()[k as int],
{
    match k {
        0 => ("(?i)([aeuio])cky\\b", "${1}cky-w${1}cky"),
        1 => ("(?i)\\b(f)(u)", "${1}w${2}"),
        2 => ("(?i)\\blo+ve\\b", "wuv"),
        3 => ("(?i)\\b(n)o(t)\\b", "${1}aw${2}"),
        4 => ("(?i)\\bwould\\b", "wud"),
        5 => ("(?i)\\b(c)al(l)", "${1}aw${2}"),
        6 => ("(?i)\\bl(i)", "w${1}"),
        7 => ("(?i)tt", "dd"),
        8 => ("(?i)e([r]+)y", "e${1}${1}y"),
        9 => ("(?i)\\bbu([t])", "bwu${1}"),
        10 => ("(?i)r\\B", "w${1}"),
        11 => ("(?i)loo", "woo"),
        12 => ("(?i)\\bwha", "wu"),
        13 => ("(?i)\\boh\\b", "owh"),
        14 => ("(?i)\\Bvy\\b", "vwy"),
        15 => ("(?i)\\bgod", "gawd"),
        16 => ("(?i)\\B(s)(es)\\b", "${1}i${2}"),
        17 => ("(?i)\\B(le)s\\b", "${1}z"),
        18 => ("(?i)\\bun\\B", "uwn"),
        19 => ("(?i)\\Bpos\\B", "paws"),
        _ => ("(?i)\\Bpos\\B", "paws"),
    }
}

/// A transformer that UwU-izes text.
pub struct TransformUwuize {
    /// The compiled substitutions; `None` when one failed to compile.
    matchers: Option<Vec<Matcher>>,
}

impl TransformUwuize {
    /// When the substitutions compiled, each was compiled from its own pattern.
    #[verifier::type_invariant]
    closed spec fn compiled_in_order(&self) -> bool {
        self.matchers matches Some(v) ==> {
            &&& v@.len() == UWU_RULE_COUNT
            &&& forall|k: int|
                0 <= k < UWU_RULE_COUNT ==> (#[trigger] v@[k]).pattern() == uwu_rules()[k].0
        }
    }

    /// Every substitution compiled.
    pub closed spec fn is_ready(&self) -> bool {
        self.matchers is Some
    }

    /// Compiles the substitutions; the transformer is ready exactly when
    /// every pattern compiles.
    pub fn new() -> (r: Self)
        ensures
            r.is_ready() <==> forall|k: int|
                0 <= k < UWU_RULE_COUNT ==> regex_compiles(#[trigger] uwu_rules()[k].0),
    {
        let mut matchers: Vec<Matcher> = Vec::new();
        let mut k: usize = 0;
        while k < UWU_RULE_COUNT
            invariant
                k <= UWU_RULE_COUNT,
                matchers@.len() == k,
                forall|k2: int|
                    0 <= k2 < k ==> (#[trigger] matchers@[k2]).pattern() == uwu_rules()[k2].0,
                forall|k2: int| 0 <= k2 < k ==> regex_compiles(#[trigger] uwu_rules()[k2].0),
            decreases UWU_RULE_COUNT - k,
        {
            let (pattern, _) = uwu_rule(k);
            match compile(pattern) {
                Some(m) => matchers.push(m),
                None => {
                    proof {
                        assert(!regex_compiles(uwu_rules()[k as int].0));
                    }
                    return TransformUwuize { matchers: None };
                },
            }
            k = k + 1;
        }
        TransformUwuize { matchers: Some(matchers) }
    }

    pub fn transform(&mut self, input: String) -> (r: Result<String, TransformError>)
        ensures
            old(self).is_ready() ==> (r matches Ok(s) && s@ == apply_rules(uwu_rules(), input@)),
            !old(self).is_ready() ==> r == Err::<String, TransformError>(TransformError::InvalidPattern),
            *final(self) == *old(self),
    {
        proof {
            use_type_invariant(&*self);
        }
        match &self.matchers {
            None => Err(TransformError::InvalidPattern),
            Some(matchers) => {
                let mut text = input;
                let ghost start = text@;
                let mut k: usize = 0;
                while k < UWU_RULE_COUNT
                    invariant
                        k <= UWU_RULE_COUNT,
                        matchers@.len() == UWU_RULE_COUNT,
                        forall|k2: int|
                            0 <= k2 < UWU_RULE_COUNT ==> (#[trigger] matchers@[k2]).pattern()
                                == uwu_rules()[k2].0,
                        text@ == apply_rules(
                            uwu_rules().subrange(0, k as int),
                            start,
                        ),
                    decreases UWU_RULE_COUNT - k,
                {
                    let (_, replacement) = uwu_rule(k);
                    text = replace_all(&matchers[k], text.as_str(), replacement);
                    proof {
                        assert(uwu_rules().subrange(0, k + 1).drop_last() =~= uwu_rules().subrange(
                            0,
                            k as int,
                        ));
                    }
                    k = k + 1;
                }
                proof {
                    assert(uwu_rules().subrange(0, UWU_RULE_COUNT as int) =~= uwu_rules());
                }
                Ok(text)
            },
        }
    }
}

} // verus!
