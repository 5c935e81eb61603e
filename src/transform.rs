//! Text transformers that may run on the input before it is decorated.
use vstd::prelude::*;
use crate::text::same_text;

pub mod casing;
pub mod uwu;

use crate::transform::casing::{
    TransformLowerCase,
    TransformRandomCase,
    TransformUpperCase,
    TransformVowelCase,
    lower_of,
    upper_of,
    cased,
    vowels_raised,
};
use crate::transform::uwu::{TransformUwuize, apply_rules, uwu_rules};

verus! {

/// A transformer that could not run.
#[derive(Clone, Copy, Debug, PartialEq, Eq, Structural)]
pub enum TransformError {
    /// One of the transformer's regular expressions failed to compile.
    InvalidPattern,
}

/// One of the available transformers.
pub enum Transform {
    UpperCase(TransformUpperCase),
    LowerCase(TransformLowerCase),
    RandomCase(TransformRandomCase),
    VowelCase(TransformVowelCase),
    Uwuize(TransformUwuize),
}

/// `out` is a result that running `t` on `input` may give.
pub open spec fn transforms_to(t: Transform, input: Seq<char>, out: Seq<char>) -> bool {
    match t {
        Transform::UpperCase(_) => out == upper_of(input),
        Transform::LowerCase(_) => out == lower_of(input),
        Transform::VowelCase(_) => out == vowels_raised(lower_of(input)),
        Transform::RandomCase(_) => exists|coins: Seq<bool>|
            coins.len() == input.len() && out == cased(input, coins),
        Transform::Uwuize(u) => u.is_ready() && out == apply_rules(uwu_rules(), input),
    }
}

/// Running `t` fails: it is an uwu-izer whose substitutions did not compile.
pub open spec fn fails(t: Transform) -> bool {
    t matches Transform::Uwuize(u) && !u.is_ready()
}

/// `a` and `b` are the same transformer, up to the state of a random source.
pub open spec fn same_transformer(a: Transform, b: Transform) -> bool {
    match (a, b) {
        (Transform::UpperCase(_), Transform::UpperCase(_)) => true,
        (Transform::LowerCase(_), Transform::LowerCase(_)) => true,
        (Transform::RandomCase(_), Transform::RandomCase(_)) => true,
        (Transform::VowelCase(_), Transform::VowelCase(_)) => true,
        (Transform::Uwuize(u), Transform::Uwuize(v)) => u == v,
        _ => false,
    }
}

impl Transform {
    /// Runs the transformer on `input`.
    pub fn transform(&mut self, input: String) -> (r: Result<String, TransformError>)
        ensures
            r matches Ok(s) ==> transforms_to(*old(self), input@, s@),
            r is Err <==> fails(*old(self)),
            r is Err ==> r == Err::<String, TransformError>(TransformError::InvalidPattern),
            same_transformer(*final(self), *old(self)),
    {
        match self {
            Transform::UpperCase(t) => t.transform(input),
            Transform::LowerCase(t) => t.transform(input),
            Transform::RandomCase(t) => t.transform(input),
            Transform::VowelCase(t) => t.transform(input),
            Transform::Uwuize(t) => t.transform(input),
        }
    }
}

/// Runs `transformers` in order, each on the output of the one before; stops
/// at the first that fails.
pub fn apply_all(transformers: &mut Vec<Transform>, input: String) -> (r: Result<
    String,
    TransformError,
>)
    ensures
        final(transformers)@.len() == old(transformers)@.len(),
        forall|j: int|
            0 <= j < old(transformers)@.len() ==> same_transformer(
                #[trigger] final(transformers)@[j],
                old(transformers)@[j],
            ),
        r is Err <==> exists|j: int|
            0 <= j < old(transformers)@.len() && fails(#[trigger] old(transformers)@[j]),
        r is Err ==> r == Err::<String, TransformError>(TransformError::InvalidPattern),
        r matches Ok(s) ==> exists|texts: Seq<Seq<char>>|
            {
                &&& texts.len() == old(transformers)@.len() + 1
                &&& texts[0] == input@
                &&& texts.last() == s@
                &&& forall|j: int|
                    0 <= j < old(transformers)@.len() ==> transforms_to(
                        #[trigger] old(transformers)@[j],
                        texts[j],
                        texts[j + 1],
                    )
            },
{
    let ghost start = transformers@;
    let ghost first = input@;
    let mut text = input;
    let ghost mut texts: Seq<Seq<char>> = seq![first];
    let mut k: usize = 0;
    while k < transformers.len()
        invariant
            start == old(transformers)@,
            transformers@.len() == start.len(),
            k <= start.len(),
            forall|j: int|
                0 <= j < start.len() ==> same_transformer(#[trigger] transformers@[j], start[j]),
            forall|j: int| k <= j < start.len() ==> #[trigger] transformers@[j] == start[j],
            forall|j: int| 0 <= j < k ==> !fails(#[trigger] start[j]),
            texts.len() == k + 1,
            texts[0] == first,
            texts[k as int] == text@,
            forall|j: int|
                0 <= j < k ==> transforms_to(#[trigger] start[j], texts[j], texts[j + 1]),
        decreases start.len() - k,
    {
        let ghost before = transformers@;
        let res = transformers[k].transform(text);
        proof {
            assert forall|j: int| 0 <= j < start.len() implies same_transformer(
                #[trigger] transformers@[j],
                start[j],
            ) by {
                if j != k {
                    assert(transformers@[j] == before[j]);
                }
            }
        }
        match res {
            Ok(s) => {
                text = s;
                proof {
                    texts = texts.push(text@);
                }
            },
            Err(e) => {
                proof {
                    assert(fails(start[k as int]));
                }
                return Err(e);
            },
        }
        k = k + 1;
    }
    proof {
        assert(texts.last() == text@);
    }
    Ok(text)
}

/// The transformer called `name` on the command line.
pub fn get_transformer(name: &str) -> (r: Option<Transform>)
    ensures
        (name@ == "upper"@ || name@ == "uppercase"@) <==> r matches Some(Transform::UpperCase(_)),
        (name@ == "lower"@ || name@ == "lowercase"@) <==> r matches Some(Transform::LowerCase(_)),
        name@ == "randomcase"@ <==> r matches Some(Transform::RandomCase(_)),
        name@ == "uwuize"@ <==> r matches Some(Transform::Uwuize(_)),
        !(r matches Some(Transform::VowelCase(_))),
{
    proof {
        reveal_strlit("upper");
        reveal_strlit("uppercase");
        reveal_strlit("lower");
        reveal_strlit("lowercase");
        reveal_strlit("randomcase");
        reveal_strlit("uwuize");
        assert("upper"@[0] != "lower"@[0]);
        assert("uppercase"@[0] != "lowercase"@[0]);
        assert("upper"@.len() != "randomcase"@.len() && "uppercase"@.len() != "randomcase"@.len());
        assert("lower"@.len() != "randomcase"@.len() && "lowercase"@.len() != "randomcase"@.len());
        assert("upper"@.len() != "uwuize"@.len() && "uppercase"@.len() != "uwuize"@.len());
        assert("lower"@.len() != "uwuize"@.len() && "lowercase"@.len() != "uwuize"@.len());
        assert("randomcase"@.len() != "uwuize"@.len());
        assert("upper"@.len() != "lowercase"@.len() && "uppercase"@.len() != "lower"@.len());
    }
    if same_text(name, "upper") || same_text(name, "uppercase") {
        Some(Transform::UpperCase(TransformUpperCase::new()))
    } else if same_text(name, "lower") || same_text(name, "lowercase") {
        Some(Transform::LowerCase(TransformLowerCase::new()))
    } else if same_text(name, "randomcase") {
        Some(Transform::RandomCase(TransformRandomCase::new()))
    } else if same_text(name, "uwuize") {
        Some(Transform::Uwuize(TransformUwuize::new()))
    } else {
        None
    }
}

} // verus!
