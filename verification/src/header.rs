//! Header documents: what one must hold, and where its chart list is.

use vstd::prelude::*;
use crate::error::{Failure, ParseError};
use crate::table::{DifficultTable, Table};
use crate::url::{is_absolute, lemma_resolved, resolve, resolved};

verus! {

/// The header `header` once checked, its chart list resolved against `prefix`.
///
/// Name, symbol and chart list must each be there, and are looked at in this
/// order; a relative chart list needs a base.
pub open spec fn validated(header: Table, prefix: Option<Seq<char>>) -> Result<Table, Failure> {
    if header.name.len() == 0 {
        Err(Failure::CorruptedHeaderData("Difficult table name cannot be empty"@))
    } else if header.symbol.len() == 0 {
        Err(Failure::CorruptedHeaderData("Difficult table symbol cannot be empty"@))
    } else if header.data_url.len() == 0 {
        Err(Failure::CorruptedHeaderData("Difficult table data_url cannot be empty"@))
    } else {
        match resolved(prefix, header.data_url) {
            None => Err(
                Failure::CorruptedHeaderData(
                    "data_url is a relative path while no prefix url is provided"@,
                ),
            ),
            Some(url) => Ok(Table { data_url: url, ..header }),
        }
    }
}

/// The base `prefix_url` as characters.
pub open spec fn prefix_view(prefix_url: Option<String>) -> Option<Seq<char>> {
    match prefix_url {
        Some(base) => Some(base@),
        None => None,
    }
}

/// Checks a header as it came from its document, and makes its chart list
/// absolute: a relative `data_url` is joined to `prefix_url`.
pub fn validate_header(header: DifficultTable, prefix_url: &Option<String>) -> (r: Result<
    DifficultTable,
    ParseError,
>)
    ensures
        match validated(header@, prefix_view(*prefix_url)) {
            Ok(table) => r matches Ok(checked) && checked@ == table,
            Err(e) => r matches Err(x) && x@ == e,
        },
{
    if header.name.as_str().is_empty() {
        return Err(ParseError::corrupted("Difficult table name cannot be empty"));
    }
    if header.symbol.as_str().is_empty() {
        return Err(ParseError::corrupted("Difficult table symbol cannot be empty"));
    }
    if header.data_url.as_str().is_empty() {
        return Err(ParseError::corrupted("Difficult table data_url cannot be empty"));
    }
    let prefix: Option<&str> = match prefix_url {
        Some(base) => Some(base.as_str()),
        None => None,
    };
    match resolve(prefix, header.data_url.as_str()) {
        None => Err(
            ParseError::corrupted("data_url is a relative path while no prefix url is provided"),
        ),
        Some(url) => {
            let mut checked = header;
            checked.data_url = url;
            Ok(checked)
        },
    }
}

/// A header passes exactly if it has a name, a symbol and a chart list, and
/// the chart list is absolute or there is a base for it. Where it does not
/// pass, the failure names what is wrong: the first of name, symbol and
/// chart list that is empty, else the base that is not there.
pub proof fn lemma_validated(header: Table, prefix: Option<Seq<char>>)
    ensures
        validated(header, prefix) is Ok <==> header.name.len() > 0 && header.symbol.len() > 0
            && header.data_url.len() > 0 && (is_absolute(header.data_url) || prefix is Some),
        header.name.len() == 0 ==> validated(header, prefix) == Err::<Table, Failure>(
            Failure::CorruptedHeaderData("Difficult table name cannot be empty"@),
        ),
        header.name.len() > 0 && header.symbol.len() == 0 ==> validated(header, prefix) == Err::<
            Table,
            Failure,
        >(Failure::CorruptedHeaderData("Difficult table symbol cannot be empty"@)),
        header.name.len() > 0 && header.symbol.len() > 0 && header.data_url.len() == 0
            ==> validated(header, prefix) == Err::<Table, Failure>(
            Failure::CorruptedHeaderData("Difficult table data_url cannot be empty"@),
        ),
        header.name.len() > 0 && header.symbol.len() > 0 && header.data_url.len() > 0
            && !is_absolute(header.data_url) && prefix is None ==> validated(header, prefix)
            == Err::<Table, Failure>(
            Failure::CorruptedHeaderData(
                "data_url is a relative path while no prefix url is provided"@,
            ),
        ),
{
    lemma_resolved(prefix, header.data_url);
}

/// A header that has passed has a name, a symbol and a chart list, and is
/// otherwise what it was. Its chart list is what it was where that was
/// absolute, and is absolute wherever the base is.
pub proof fn lemma_validated_header(header: Table, prefix: Option<Seq<char>>)
    requires
        validated(header, prefix) is Ok,
    ensures
        validated(header, prefix)->Ok_0.name.len() > 0,
        validated(header, prefix)->Ok_0.symbol.len() > 0,
        validated(header, prefix)->Ok_0.data_url.len() > 0,
        validated(header, prefix)->Ok_0 == (Table {
            data_url: validated(header, prefix)->Ok_0.data_url,
            ..header
        }),
        is_absolute(header.data_url) ==> validated(header, prefix)->Ok_0 == header,
        prefix matches Some(base) && is_absolute(base) ==> is_absolute(
            validated(header, prefix)->Ok_0.data_url,
        ),
{
    lemma_resolved(prefix, header.data_url);
}

} // verus!
