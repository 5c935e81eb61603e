//! Named collections of combining glyphs.
use vstd::prelude::*;
use crate::matcher::{Matcher, compile, matches_char, regex_compiles, regex_is_match};
use crate::text::{append_str, same_text};

verus! {

/// Where a combining glyph attaches relative to its base character.
#[derive(Clone, Copy, Debug, PartialEq, Eq, Hash, Structural)]
pub enum GlyphPosition {
    ABOVE,
    BELOW,
    THROUGH,
}

/// A combining mark, the position it takes, and the rule for the base
/// characters it may be put on.
pub struct Glyph {
    pub codepoint: char,
    pub position: GlyphPosition,
    pub combines: Matcher,
}

/// A named, immutable collection of glyphs.
pub struct Repertoire {
    pub name: String,
    pub description: String,
    pub glyphs: Vec<Glyph>,
}

/// Failure to read a repertoire.
pub enum Error {
    DeserializeError { reason: String },
}

impl Error {
    /// The message that describes this error.
    pub fn to_string(&self) -> (r: String)
        ensures
            self matches Error::DeserializeError { reason } ==> r@ == reason@,
    {
        match self {
            Error::DeserializeError { reason } => reason.clone(),
        }
    }
}

/// Whether `g` may be attached to the base character `c`: its rule matches
/// the encoding of `c` alone.
pub open spec fn accepts(g: Glyph, c: char) -> bool {
    regex_is_match(g.combines.pattern(), seq![c])
}

impl Repertoire {
    /// Creates a repertoire.
    pub fn new(name: String, description: String, glyphs: Vec<Glyph>) -> (r: Self)
        ensures
            r.name == name,
            r.description == description,
            r.glyphs == glyphs,
    {
        Repertoire { name, description, glyphs }
    }
}

impl Glyph {
    /// Creates a glyph from its code point, its position and the regular
    /// expression that its base characters must match; `None` when `combines`
    /// is not a valid regular expression.
    pub fn new(codepoint: char, position: GlyphPosition, combines: &str) -> (r: Option<Self>)
        ensures
            r is Some <==> regex_compiles(combines@),
            r matches Some(g) ==> g.codepoint == codepoint && g.position == position
                && g.combines.pattern() == combines@,
    {
        match compile(combines) {
            Some(m) => Some(Glyph { codepoint, position, combines: m }),
            None => None,
        }
    }

    /// Checks whether this glyph may be attached to the base character `c`.
    pub fn is_applicable(&self, c: char) -> (r: bool)
        ensures
            r == accepts(*self, c),
    {
        matches_char(&self.combines, c)
    }
}

/// The formats a repertoire file can be read from.
#[derive(Clone, Copy, Debug, PartialEq, Eq, Structural)]
pub enum RepertoireFormat {
    Yaml,
}

/// The message for a file named `file_name` whose type is not known, or
/// (`known_extension`) whose type cannot be read.
pub open spec fn file_type_message(file_name: Seq<char>, known_extension: bool) -> Seq<char> {
    if known_extension {
        "unable to deserialize the file type of '"@ + file_name + "'"@
    } else {
        "unable to determine the file type of '"@ + file_name + "'"@
    }
}

/// Decides how to read a repertoire file from its extension: `yml` and `yaml`
/// files hold YAML; a file without an extension, or with another one, is
/// refused.
pub fn repertoire_format(extension: Option<&str>, file_name: &str) -> (r: Result<
    RepertoireFormat,
    Error,
>)
    ensures
        match extension {
            None => r matches Err(Error::DeserializeError { reason }) && reason@
                == file_type_message(file_name@, false),
            Some(e) => if e@ == "yml"@ || e@ == "yaml"@ {
                r == Ok::<RepertoireFormat, Error>(RepertoireFormat::Yaml)
            } else {
                r matches Err(Error::DeserializeError { reason }) && reason@ == file_type_message(
                    file_name@,
                    true,
                )
            },
        },
{
    match extension {
        None => {
            let mut reason = String::new();
            append_str(&mut reason, "unable to determine the file type of '");
            append_str(&mut reason, file_name);
            append_str(&mut reason, "'");
            Err(Error::DeserializeError { reason })
        },
        Some(e) => {
            if same_text(e, "yml") || same_text(e, "yaml") {
                Ok(RepertoireFormat::Yaml)
            } else {
                let mut reason = String::new();
                append_str(&mut reason, "unable to deserialize the file type of '");
                append_str(&mut reason, file_name);
                append_str(&mut reason, "'");
                Err(Error::DeserializeError { reason })
            }
        },
    }
}

} // verus!
