//! Regular expressions, compiled and matched by the `regex` crate.

use vstd::prelude::*;

verus! {

/// The `regex` crate's compiled expression.
#[verifier::external_type_specification]
#[verifier::external_body]
pub struct ExRegex(regex::Regex);

/// The message of the error that `regex::Regex::new` gives for an expression;
/// none where it compiles.
pub uninterp spec fn regex_error(source: Seq<char>) -> Option<Seq<char>>;

/// What `regex::Regex::is_match` returns for an expression and a text.
pub uninterp spec fn regex_matches(source: Seq<char>, hay: Seq<char>) -> bool;

/// What `regex::Captures::expand` writes for a template, from the captures of
/// the first match in the text; none where there is no match.
pub uninterp spec fn regex_expand(
    source: Seq<char>,
    hay: Seq<char>,
    template: Seq<char>,
) -> Option<Seq<char>>;

/// What `regex::Regex::replace_all` makes of a text.
pub uninterp spec fn regex_replace_all(
    source: Seq<char>,
    hay: Seq<char>,
    replacement: Seq<char>,
) -> Seq<char>;

/// A regular expression that compiled. Its view is its source.
#[derive(Debug)]
pub struct Pattern {
    source: String,
    re: regex::Regex,
}

impl View for Pattern {
    type V = Seq<char>;

    closed spec fn view(&self) -> Seq<char> {
        self.source@
    }
}

/// `regex::Regex::new`. Whether the expression compiles, and the message where
/// it does not, rest on its text alone and go by the name `regex_error`.
#[verifier::external_body]
fn compile_regex(source: &str) -> (r: Result<Pattern, String>)
    ensures
        match r {
            Ok(p) => regex_error(source@) is None && p@ == source@,
            Err(e) => regex_error(source@) == Some(e@),
        },
{
    match regex::Regex::new(source) {
        Ok(re) => Ok(Pattern { source: source.to_owned(), re }),
        Err(e) => Err(e.to_string()),
    }
}

/// Compiles a regular expression, or gives the message that says why not.
pub fn compile(source: &str) -> (r: Result<Pattern, String>)
    ensures
        match r {
            Ok(p) => regex_error(source@) is None && p@ == source@,
            Err(e) => regex_error(source@) == Some(e@),
        },
{
    compile_regex(source)
}

/// The expression, where there is one that compiles.
pub open spec fn compiled(s: Option<String>) -> Option<Seq<char>> {
    match s {
        Some(t) => if regex_error(t@) is None {
            Some(t@)
        } else {
            None
        },
        None => None,
    }
}

/// Compiles a regular expression, if there is one and it can be compiled.
pub fn compile_option(source: &Option<String>) -> (r: Option<Pattern>)
    ensures
        match r {
            Some(p) => compiled(*source) == Some(p@),
            None => compiled(*source) is None,
        },
{
    match source {
        Some(s) => match compile(s.as_str()) {
            Ok(p) => Some(p),
            Err(_) => None,
        },
        None => None,
    }
}

impl Pattern {
    /// `regex::Regex::is_match`. The result rests on the expression and the
    /// text alone and goes by the name `regex_matches`.
    #[verifier::external_body]
    pub(crate) fn is_match(&self, hay: &str) -> (r: bool)
        ensures
            r == regex_matches(self@, hay@),
    {
        self.re.is_match(hay)
    }

    /// `regex::Regex::captures`, and `regex::Captures::expand` of the
    /// template from them. The result rests on the expression, the text and
    /// the template alone and goes by the name `regex_expand`; there is one
    /// exactly where the text has a match.
    #[verifier::external_body]
    pub(crate) fn expand(&self, hay: &str, template: &str) -> (r: Option<String>)
        ensures
            match r {
                Some(t) => regex_expand(self@, hay@, template@) == Some(t@),
                None => regex_expand(self@, hay@, template@) is None,
            },
            r is Some <==> regex_matches(self@, hay@),
    {
        self.re.captures(hay).map(
            |caps|
                {
                    let mut out = String::new();
                    caps.expand(template, &mut out);
                    out
                },
        )
    }

    /// `regex::Regex::replace_all`. The result rests on the expression, the
    /// text and the replacement alone and goes by the name
    /// `regex_replace_all`; a text without a match is returned unchanged.
    #[verifier::external_body]
    pub(crate) fn replace_all(&self, hay: &str, replacement: &str) -> (r: String)
        ensures
            r@ == regex_replace_all(self@, hay@, replacement@),
            !regex_matches(self@, hay@) ==> r@ == hay@,
    {
        self.re.replace_all(hay, replacement).into_owned()
    }
}

/// An expression counts where it is given and compiles, and as it is given.
pub proof fn law_expressions_count_as_given(s: Option<String>)
    ensures
        s is None ==> compiled(s) is None,
        s matches Some(t) ==> (regex_error(t@) is None ==> compiled(s) == Some(t@)) && (regex_error(
            t@,
        ) is Some ==> compiled(s) is None),
{
}

} // verus!
