//! Query parameters of the QIDO-RS searches, and the page of results that
//! they select.

use vstd::prelude::*;

verus! {

/// The page size where a query names none.
pub const DEFAULT_LIMIT: usize = 100;

/// Index of the first result that a page shows.
pub open spec fn page_start(total: nat, offset: Option<usize>) -> nat {
    let skip = match offset {
        Some(n) => n as nat,
        None => 0,
    };
    if skip < total {
        skip
    } else {
        total
    }
}

/// Index after the last result that a page shows.
pub open spec fn page_end(total: nat, offset: Option<usize>, limit: Option<usize>) -> nat {
    let start = page_start(total, offset);
    let take = match limit {
        Some(n) => n as nat,
        None => DEFAULT_LIMIT as nat,
    };
    if total - start < take {
        total
    } else {
        start + take
    }
}

/// The range of results that a page shows out of `total` results: `offset`
/// results are passed over, none where it is absent, and at most `limit`
/// follow, 100 where it is absent.
pub fn page(total: usize, offset: Option<usize>, limit: Option<usize>) -> (r: (usize, usize))
    ensures
        r.0 == page_start(total as nat, offset),
        r.1 == page_end(total as nat, offset, limit),
        r.0 <= r.1 <= total,
{
    let skip: usize = match offset {
        Some(n) => n,
        None => 0,
    };
    let start: usize = if skip < total {
        skip
    } else {
        total
    };
    let take: usize = match limit {
        Some(n) => n,
        None => DEFAULT_LIMIT,
    };
    let end: usize = if total - start < take {
        total
    } else {
        start + take
    };
    (start, end)
}

/// Query parameters of a search for studies.
#[derive(Debug)]
pub struct QidoStudyQuery {
    /// The most results to return.
    pub limit: Option<usize>,
    /// The number of results to pass over.
    pub offset: Option<usize>,
    /// Whether names are matched loosely.
    pub fuzzymatching: Option<bool>,
    /// The attributes to add to each result.
    pub includefields: Vec<String>,
    /// The attributes to match, each a tag as group and element, with the
    /// value it has to have.
    pub matches: Vec<((u16, u16), String)>,
}

impl QidoStudyQuery {
    /// The range of results that this query shows out of `total` results.
    pub fn page(&self, total: usize) -> (r: (usize, usize))
        ensures
            r.0 == page_start(total as nat, self.offset),
            r.1 == page_end(total as nat, self.offset, self.limit),
            r.0 <= r.1 <= total,
    {
        page(total, self.offset, self.limit)
    }
}

/// Query parameters of a search for series.
#[derive(Debug)]
pub struct QidoSeriesQuery {
    /// The most results to return.
    pub limit: Option<usize>,
    /// The number of results to pass over.
    pub offset: Option<usize>,
    /// The attributes to add to each result.
    pub includefield: Option<String>,
    /// The modality to match.
    pub modality: Option<String>,
    /// The series to match.
    pub series_instance_uid: Option<String>,
    /// The description to match.
    pub series_description: Option<String>,
}

impl QidoSeriesQuery {
    /// The range of results that this query shows out of `total` results.
    pub fn page(&self, total: usize) -> (r: (usize, usize))
        ensures
            r.0 == page_start(total as nat, self.offset),
            r.1 == page_end(total as nat, self.offset, self.limit),
            r.0 <= r.1 <= total,
    {
        page(total, self.offset, self.limit)
    }
}

/// Query parameters of a search for instances.
#[derive(Debug)]
pub struct QidoInstanceQuery {
    /// The most results to return.
    pub limit: Option<usize>,
    /// The number of results to pass over.
    pub offset: Option<usize>,
    /// The attributes to add to each result.
    pub includefield: Option<String>,
    /// The instance to match.
    pub sop_instance_uid: Option<String>,
    /// The instance number to match.
    pub instance_number: Option<String>,
}

impl QidoInstanceQuery {
    /// The range of results that this query shows out of `total` results.
    pub fn page(&self, total: usize) -> (r: (usize, usize))
        ensures
            r.0 == page_start(total as nat, self.offset),
            r.1 == page_end(total as nat, self.offset, self.limit),
            r.0 <= r.1 <= total,
    {
        page(total, self.offset, self.limit)
    }
}

} // verus!
