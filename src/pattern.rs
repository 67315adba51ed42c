use vstd::prelude::*;

verus! {

/// The regex crate's compiled regular expression, opaque here.
#[verifier::external_type_specification]
#[verifier::external_body]
pub struct ExRegex(regex::Regex);

/// Whether `pat` is a regular expression that the regex crate accepts.
pub uninterp spec fn regex_compiles(pat: Seq<char>) -> bool;

/// Whether the regular expression `pat` matches somewhere in `text`.
pub uninterp spec fn regex_is_match(pat: Seq<char>, text: Seq<char>) -> bool;

/// How many successive non-overlapping matches of `pat` there are in `text`.
pub uninterp spec fn regex_match_count(pat: Seq<char>, text: Seq<char>) -> nat;

/// `text` with every non-overlapping match of `pat` replaced by `rep`, in
/// which `$N` and `$name` stand for capture groups.
pub uninterp spec fn regex_replace_all(pat: Seq<char>, rep: Seq<char>, text: Seq<char>) -> Seq<char>;

/// A compiled regular expression together with the text it was compiled from.
pub(crate) struct Pattern {
    re: regex::Regex,
    source: String,
}

impl Pattern {
    /// The text the expression was compiled from.
    pub(crate) closed spec fn source_view(&self) -> Seq<char> {
        self.source@
    }

    /// Relies on `regex::Regex::new`: it succeeds exactly on valid patterns.
    #[verifier::external_body]
    pub(crate) fn compile(pat: &str) -> (r: Option<Pattern>)
        ensures
            r.is_some() == regex_compiles(pat@),
            r matches Some(p) ==> p.source_view() == pat@,
    {
        match regex::Regex::new(pat) {
            Ok(re) => Some(Pattern { re, source: pat.to_string() }),
            Err(_) => None,
        }
    }

    /// Relies on `regex::Regex::is_match`: whether there is a match anywhere.
    #[verifier::external_body]
    pub(crate) fn is_match(&self, text: &str) -> (r: bool)
        ensures
            r == regex_is_match(self.source_view(), text@),
    {
        self.re.is_match(text)
    }

    /// Relies on `regex::Regex::find_iter`: it yields every successive
    /// non-overlapping match, and there is one exactly when `is_match` holds.
    #[verifier::external_body]
    pub(crate) fn count_matches(&self, text: &str) -> (r: usize)
        ensures
            r as nat == regex_match_count(self.source_view(), text@),
            (r > 0) == regex_is_match(self.source_view(), text@),
    {
        self.re.find_iter(text).count()
    }

    /// Relies on `regex::Regex::replace_all`: every match replaced, and the
    /// text returned unchanged when there is none.
    #[verifier::external_body]
    pub(crate) fn replace_all(&self, text: &str, rep: &str) -> (r: String)
        ensures
            r@ == regex_replace_all(self.source_view(), rep@, text@),
            !regex_is_match(self.source_view(), text@) ==> r@ == text@,
    {
        self.re.replace_all(text, rep).into_owned()
    }
}

} // verus!
