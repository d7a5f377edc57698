//! Regular expressions of the `regex` crate, from text to text.
use vstd::prelude::*;

verus! {

/// `text` with every match of `pattern` replaced, as `regex` does it; `None`
/// where the pattern does not compile.
pub uninterp spec fn replaced(pattern: Seq<char>, text: Seq<char>, by: Seq<char>) -> Option<
    Seq<char>,
>;

/// The first two groups of every match of `pattern` in `text`, as `regex`
/// finds them; `None` where the pattern does not compile.
pub uninterp spec fn captured(pattern: Seq<char>, text: Seq<char>) -> Option<
    Seq<(Seq<char>, Seq<char>)>,
>;

/// The patterns that mask volatile text.
pub open spec fn mask_pattern(p: Seq<char>) -> bool {
    ||| p == r"\d{4}-\d{2}-\d{2}[T ]\d{2}:\d{2}(:\d{2})?(\.\d+)?(Z|[+-]\d{2}:?\d{2})?"@
    ||| p == r"\d{4}-\d{2}-\d{2}"@
    ||| p
        == r"[0-9a-fA-F]{8}-[0-9a-fA-F]{4}-[0-9a-fA-F]{4}-[0-9a-fA-F]{4}-[0-9a-fA-F]{12}"@
    ||| p == r"\b\d{1,3}\.\d{1,3}\.\d{1,3}\.\d{1,3}(:\d{1,5})?\b"@
    ||| p == "(?:/Users|/home|/root|/private/tmp|/tmp|/var/folders)/[^\\s\"']+"@
}

/// `regex::Regex::new` and `Regex::replace_all`. The result depends on the
/// three texts alone and is named; beside the name the contract claims that
/// the masking patterns compile.
#[verifier::external_body]
pub(crate) fn replace_all(pattern: &str, text: &str, by: &str) -> (r: Option<String>)
    ensures
        match r {
            Some(s) => replaced(pattern@, text@, by@) == Some(s@),
            None => replaced(pattern@, text@, by@) is None,
        },
        mask_pattern(pattern@) ==> r is Some,
{
    match regex::Regex::new(pattern) {
        Ok(re) => Some(re.replace_all(text, by).into_owned()),
        Err(_) => None,
    }
}

/// The patterns that find links in a result page.
pub open spec fn link_pattern(p: Seq<char>) -> bool {
    ||| p == "<a[^>]*class=\"result-link\"[^>]*href=\"([^\"]*)\"[^>]*>([^<]*)</a>"@
    ||| p == "<a[^>]*href=\"(https?://[^\"]*)\"[^>]*>([^<]{10,})</a>"@
}

pub open spec fn pair_views(v: Seq<(String, String)>) -> Seq<(Seq<char>, Seq<char>)> {
    v.map_values(|p: (String, String)| (p.0@, p.1@))
}

/// `regex::Regex::new` and `Regex::captures_iter`, each match as the text of
/// its first two groups (empty where a group took no part). The result depends
/// on the two texts alone and is named; beside the name the contract claims
/// that the link patterns compile.
#[verifier::external_body]
pub(crate) fn capture_pairs(pattern: &str, text: &str) -> (r: Option<Vec<(String, String)>>)
    ensures
        match r {
            Some(v) => captured(pattern@, text@) == Some(pair_views(v@)),
            None => captured(pattern@, text@) is None,
        },
        link_pattern(pattern@) ==> r is Some,
{
    match regex::Regex::new(pattern) {
        Ok(re) => Some(
            re.captures_iter(text)
                .map(|c| (c.get(1).map_or("", |m| m.as_str()).to_string(),
                    c.get(2).map_or("", |m| m.as_str()).to_string()))
                .collect(),
        ),
        Err(_) => None,
    }
}

} // verus!
