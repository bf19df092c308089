//! Entry URLs: which kind of document one points to, the base it gives to
//! relative references, and how such a reference is resolved.

use vstd::prelude::*;
use crate::error::ParseError;
use crate::text::{chars_of, has_prefix, has_suffix};

verus! {

/// What an entry URL points to.
#[derive(Debug, Clone, Copy, PartialEq, Eq, Structural)]
pub enum UrlKind {
    /// The header document itself.
    Json,
    /// A page that names the header document.
    Html,
}

/// Whether `url` stands on its own: it begins with `http`.
pub open spec fn is_absolute(url: Seq<char>) -> bool {
    "http"@.is_prefix_of(url)
}

/// The kind of the entry URL `url`, where it is supported: it is absolute
/// and ends in `.json`, `.htm` or `.html`.
pub open spec fn kind_of(url: Seq<char>) -> Option<UrlKind> {
    if !is_absolute(url) {
        None
    } else if ".json"@.is_suffix_of(url) {
        Some(UrlKind::Json)
    } else if ".htm"@.is_suffix_of(url) || ".html"@.is_suffix_of(url) {
        Some(UrlKind::Html)
    } else {
        None
    }
}

/// `url` up to and with its last `/`; empty where `url` has none.
pub open spec fn base_of(url: Seq<char>) -> Seq<char>
    decreases url.len(),
{
    if url.len() == 0 || url.last() == '/' {
        url
    } else {
        base_of(url.drop_last())
    }
}

/// `base` without the slashes at its end.
pub open spec fn without_trailing_slashes(base: Seq<char>) -> Seq<char>
    decreases base.len(),
{
    if base.len() == 0 || base.last() != '/' {
        base
    } else {
        without_trailing_slashes(base.drop_last())
    }
}

/// `base` made to end in exactly one `/`.
pub open spec fn as_directory(base: Seq<char>) -> Seq<char> {
    without_trailing_slashes(base).push('/')
}

/// `target` as seen from the base `base`: itself where it is absolute, else
/// behind the base and one `/`.
pub open spec fn joined(base: Seq<char>, target: Seq<char>) -> Seq<char> {
    if is_absolute(target) {
        target
    } else {
        as_directory(base) + target
    }
}

/// The absolute form of `target`: itself where it is absolute, else joined
/// to the base `prefix`; none where it is relative and there is no base.
pub open spec fn resolved(prefix: Option<Seq<char>>, target: Seq<char>) -> Option<Seq<char>> {
    match prefix {
        Some(base) => Some(joined(base, target)),
        None => if is_absolute(target) {
            Some(target)
        } else {
            None
        },
    }
}

/// Whether `url` begins with `http`.
pub fn is_absolute_url(url: &Vec<char>) -> (r: bool)
    ensures
        r == is_absolute(url@),
{
    let scheme = chars_of("http");
    has_prefix(url, &scheme)
}

/// Tells a header document from a page by the end of `url`, and refuses
/// every URL that is not absolute or ends in neither way.
pub fn classify(url: &str) -> (r: Result<UrlKind, ParseError>)
    ensures
        match kind_of(url@) {
            Some(kind) => r == Ok::<UrlKind, ParseError>(kind),
            None => r == Err::<UrlKind, ParseError>(ParseError::UnSupportedURLFormat),
        },
{
    let chars = chars_of(url);
    if !is_absolute_url(&chars) {
        return Err(ParseError::UnSupportedURLFormat);
    }
    let json = chars_of(".json");
    let htm = chars_of(".htm");
    let html = chars_of(".html");
    if has_suffix(&chars, &json) {
        Ok(UrlKind::Json)
    } else if has_suffix(&chars, &htm) || has_suffix(&chars, &html) {
        Ok(UrlKind::Html)
    } else {
        Err(ParseError::UnSupportedURLFormat)
    }
}

/// The number of characters that `base_of` keeps of `url`.
fn base_len(url: &Vec<char>) -> (n: usize)
    ensures
        n <= url.len(),
        url@.take(n as int) == base_of(url@),
{
    let mut n: usize = url.len();
    assert(url@.take(n as int) =~= url@);
    while n > 0 && url[n - 1] != '/'
        invariant
            n <= url.len(),
            base_of(url@) == base_of(url@.take(n as int)),
        decreases n,
    {
        assert(url@.take(n as int).drop_last() == url@.take(n - 1));
        n -= 1;
    }
    n
}

/// The number of characters that `without_trailing_slashes` keeps of `base`.
fn trimmed_len(base: &Vec<char>) -> (n: usize)
    ensures
        n <= base.len(),
        base@.take(n as int) == without_trailing_slashes(base@),
{
    let mut n: usize = base.len();
    assert(base@.take(n as int) =~= base@);
    while n > 0 && base[n - 1] == '/'
        invariant
            n <= base.len(),
            without_trailing_slashes(base@) == without_trailing_slashes(base@.take(n as int)),
        decreases n,
    {
        assert(base@.take(n as int).drop_last() == base@.take(n - 1));
        n -= 1;
    }
    n
}

/// The base that `url` gives to relative references.
pub fn base_url(url: &str) -> (base: String)
    ensures
        base@ == base_of(url@),
{
    let chars = chars_of(url);
    let n = base_len(&chars);
    String::from_str(url.substring_char(0, n))
}

/// `target` as seen from `base`.
pub fn join(base: &str, target: &str) -> (url: String)
    ensures
        url@ == joined(base@, target@),
{
    if is_absolute_url(&chars_of(target)) {
        return String::from_str(target);
    }
    let n = trimmed_len(&chars_of(base));
    let directory = String::from_str(base.substring_char(0, n)).concat("/");
    proof {
        reveal_strlit("/");
        assert("/"@ =~= seq!['/']);
        assert(directory@ =~= as_directory(base@));
    }
    directory.concat(target)
}

/// Resolves `target` against the base `prefix`, where there is one.
pub fn resolve(prefix: Option<&str>, target: &str) -> (r: Option<String>)
    ensures
        match resolved(
            match prefix {
                Some(base) => Some(base@),
                None => None,
            },
            target@,
        ) {
            Some(url) => r matches Some(s) && s@ == url,
            None => r is None,
        },
{
    match prefix {
        Some(base) => Some(join(base, target)),
        None => if is_absolute_url(&chars_of(target)) {
            Some(String::from_str(target))
        } else {
            None
        },
    }
}

/// A base that begins with `http` still does so without the slashes at its end.
proof fn lemma_trimmed_keeps_scheme(base: Seq<char>)
    requires
        is_absolute(base),
    ensures
        is_absolute(without_trailing_slashes(base)),
    decreases base.len(),
{
    reveal_strlit("http");
    if base.len() > 0 && base.last() == '/' {
        assert(base.subrange(0, 4)[3] == 'p');
        assert(base.drop_last().subrange(0, 4) == base.subrange(0, 4));
        lemma_trimmed_keeps_scheme(base.drop_last());
    }
}

/// Resolution gives an absolute URL wherever the target is absolute, or is
/// relative to a base that is absolute; it gives none exactly where the
/// target is relative and there is no base.
pub proof fn lemma_resolved(prefix: Option<Seq<char>>, target: Seq<char>)
    ensures
        resolved(prefix, target) is None <==> !is_absolute(target) && prefix is None,
        is_absolute(target) ==> resolved(prefix, target) == Some(target),
        prefix matches Some(base) && is_absolute(base) ==> is_absolute(
            resolved(prefix, target)->0,
        ),
        resolved(prefix, target) matches Some(url) ==> url.len() > 0,
{
    reveal_strlit("http");
    if let Some(base) = prefix {
        if is_absolute(base) && !is_absolute(target) {
            lemma_trimmed_keeps_scheme(base);
            assert(joined(base, target).subrange(0, 4) == without_trailing_slashes(base).subrange(
                0,
                4,
            ));
        }
    }
}

} // verus!
