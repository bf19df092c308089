//! Pages that name a header document: the line that marks it, and the
//! reference that the line holds.

use vstd::prelude::*;
use crate::error::{Failure, ParseError};
use crate::text::{chars_of, find_from, first_occurrence, first_occurrence_from};
use crate::url::{base_of, base_url, join, joined};

verus! {

/// What marks the line that names the header document.
pub open spec fn marker() -> Seq<char> {
    "<meta name=\"bmstable\""@
}

/// What stands before the reference on that line.
pub open spec fn attribute() -> Seq<char> {
    "content="@
}

/// Whether `c` opens and closes an attribute's value.
pub open spec fn is_quote(c: char) -> bool {
    c == '"' || c == '\''
}

/// The length of the first line of `text`: the index of its first line
/// feed, or its length where it has none.
pub open spec fn first_line_len(text: Seq<char>) -> nat
    decreases text.len(),
{
    if text.len() == 0 || text[0] == '\n' {
        0
    } else {
        1 + first_line_len(text.drop_first())
    }
}

/// The first line of `text` that holds the marker.
pub open spec fn meta_line(text: Seq<char>) -> Option<Seq<char>>
    decreases text.len(),
{
    let n = first_line_len(text) as int;
    if first_occurrence(text.take(n), marker()) is Some {
        Some(text.take(n))
    } else if n >= text.len() {
        None
    } else {
        meta_line(text.skip(n + 1))
    }
}

/// The value of the first `content=` on `line`: what stands between the
/// quote that follows it and the next quote of the same kind.
pub open spec fn quoted_value(line: Seq<char>) -> Option<Seq<char>> {
    match first_occurrence(line, attribute()) {
        None => None,
        Some(at) => {
            let open = at + attribute().len();
            if open < line.len() && is_quote(line[open]) {
                match first_occurrence_from(line, seq![line[open]], open + 1) {
                    Some(close) => Some(line.subrange(open + 1, close)),
                    None => None,
                }
            } else {
                None
            }
        },
    }
}

/// The reference that `page` holds to its header document, as written.
pub open spec fn pointer_of(page: Seq<char>) -> Result<Seq<char>, Failure> {
    match meta_line(page) {
        None => Err(Failure::CorruptedHeaderData("Cannot fetch meta line"@)),
        Some(line) => match quoted_value(line) {
            None => Err(Failure::CorruptedHeaderData("Cannot parse meta line"@)),
            Some(value) => Ok(value),
        },
    }
}

/// Where the header document of `page` is, `page` having come from `url`:
/// the reference itself where it is absolute, else joined to the base of `url`.
pub open spec fn header_url_of(page: Seq<char>, url: Seq<char>) -> Result<Seq<char>, Failure> {
    match pointer_of(page) {
        Err(e) => Err(e),
        Ok(value) => Ok(joined(base_of(url), value)),
    }
}

/// The line of `text` that begins at `start`, and the index at which it ends.
fn line_at(text: &Vec<char>, start: usize) -> (r: (Vec<char>, usize))
    requires
        start <= text.len(),
    ensures
        start <= r.1 <= text.len(),
        r.1 == start + first_line_len(text@.skip(start as int)),
        r.0@ == text@.subrange(start as int, r.1 as int),
{
    let mut line: Vec<char> = Vec::new();
    let mut end: usize = start;
    while end < text.len() && text[end] != '\n'
        invariant
            start <= end <= text.len(),
            line@ == text@.subrange(start as int, end as int),
            first_line_len(text@.skip(start as int)) == (end - start) + first_line_len(
                text@.skip(end as int),
            ),
        decreases text.len() - end,
    {
        assert(text@.skip(end as int).drop_first() == text@.skip(end + 1));
        line.push(text[end]);
        end += 1;
        assert(line@ == text@.subrange(start as int, end as int));
    }
    (line, end)
}

/// The first line of `text` that holds the marker, and the index at which it begins.
fn find_meta_line(text: &Vec<char>) -> (r: Option<(Vec<char>, usize)>)
    ensures
        match r {
            Some((line, start)) => {
                &&& meta_line(text@) == Some(line@)
                &&& start + line.len() <= text.len()
                &&& line@ == text@.subrange(start as int, start + line.len())
            },
            None => meta_line(text@) is None,
        },
{
    let pattern = chars_of("<meta name=\"bmstable\"");
    let mut start: usize = 0;
    assert(text@.skip(0) == text@);
    loop
        invariant
            start <= text.len(),
            pattern@ == marker(),
            meta_line(text@) == meta_line(text@.skip(start as int)),
        decreases text.len() - start,
    {
        let (line, end) = line_at(text, start);
        assert(text@.skip(start as int).take(end - start) == line@);
        if find_from(&line, &pattern, 0).is_some() {
            return Some((line, start));
        }
        if end >= text.len() {
            return None;
        }
        assert(text@.skip(start as int).skip(end - start + 1) == text@.skip(end + 1));
        start = end + 1;
    }
}

/// Where on `line` the value of its first `content=` begins and ends.
fn find_quoted(line: &Vec<char>) -> (r: Option<(usize, usize)>)
    ensures
        match r {
            Some((from, to)) => {
                &&& from <= to <= line.len()
                &&& quoted_value(line@) == Some(line@.subrange(from as int, to as int))
            },
            None => quoted_value(line@) is None,
        },
{
    let pattern = chars_of("content=");
    proof {
        reveal_strlit("content=");
        crate::text::lemma_first_occurrence_from(line@, pattern@, 0);
    }
    match find_from(line, &pattern, 0) {
        None => None,
        Some(at) => {
            assert(pattern@.len() == 8);
            assert(crate::text::occurs_at(line@, pattern@, at as int));
            assert(at + 8 <= line.len());
            let open: usize = at + 8;
            if open >= line.len() {
                return None;
            }
            let quote = line[open];
            if quote != '"' && quote != '\'' {
                return None;
            }
            let mut closing: Vec<char> = Vec::new();
            closing.push(quote);
            assert(closing@ == seq![quote]);
            proof {
                crate::text::lemma_first_occurrence_from(line@, closing@, open + 1);
            }
            match find_from(line, &closing, open + 1) {
                None => None,
                Some(close) => Some((open + 1, close)),
            }
        },
    }
}

/// Finds in `page`, which came from `url`, where its header document is.
///
/// The page must hold a line with `<meta name="bmstable"`, and that line a
/// quoted value after `content=`. Gives the header document's URL and the
/// base of `url`, against which the header's own references are resolved.
pub fn extract_pointer(page: &str, url: &str) -> (r: Result<(String, String), ParseError>)
    ensures
        match header_url_of(page@, url@) {
            Ok(header_url) => r matches Ok(found) && found.0@ == header_url && found.1@ == base_of(
                url@,
            ),
            Err(e) => r matches Err(x) && x@ == e,
        },
{
    let text = chars_of(page);
    match find_meta_line(&text) {
        None => Err(ParseError::corrupted("Cannot fetch meta line")),
        Some((line, start)) => match find_quoted(&line) {
            None => Err(ParseError::corrupted("Cannot parse meta line")),
            Some((from, to)) => {
                let value = page.substring_char(start + from, start + to);
                assert(value@ == line@.subrange(from as int, to as int));
                let base = base_url(url);
                let header_url = join(base.as_str(), value);
                Ok((header_url, base))
            },
        },
    }
}

} // verus!
