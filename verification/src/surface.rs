//! The shapes of the generated read surfaces: how a checked collection
//! operation is planned against its index, which page requests a plan
//! accepts, how a page is cut from the anchors a scan returned, and the byte
//! budget one surface read may materialize.

use vstd::prelude::*;

use crate::numeral::{decimal_chars, push_decimal};
use crate::strbuf::push_str;

verus! {

/// How a node read addresses its record: the singleton, or one point by
/// identity.
#[derive(Debug, Clone, Copy, PartialEq, Eq, Structural)]
pub enum SurfaceNodeReadShape {
    Singleton,
    Point,
}

/// How a collection read walks its records.
#[derive(Debug, Clone, Copy, PartialEq, Eq, Structural)]
pub enum SurfaceCollectionReadShape {
    RootPage,
    IndexPage,
    IndexRangePage,
    UniqueLookup,
}

/// The most records one surface page may hold.
pub const SURFACE_MAX_PAGE_LIMIT: usize = 128;

/// Whether a checked index's catalog identity is present and well formed.
#[derive(Debug, Clone, Copy, PartialEq, Eq, Structural)]
pub enum CatalogIdFact {
    Missing,
    Malformed,
    WellFormed,
}

/// The checked facts of the index a collection read names, as far as
/// planning reads them: the store it indexes, whether it is unique, its
/// catalog identity, and for each of its key columns, in order, whether the
/// column's stored meaning is a scalar.
#[derive(Debug, Clone, PartialEq, Eq)]
pub struct SurfaceIndexFacts {
    pub store: u32,
    pub unique: bool,
    pub catalog_id: CatalogIdFact,
    pub key_is_scalar: Vec<bool>,
}

/// A checked surface read operation, as far as collection planning reads it.
/// The three index operations name an index whose facts are handed over
/// beside the operation.
#[derive(Debug, Clone, Copy, PartialEq, Eq, Structural)]
pub enum SurfaceReadOpShape {
    SingletonRead { store: u32 },
    PointRead { store: u32 },
    PagedRootCollection { store: u32 },
    PagedIndexCollection { exact_key_count: usize, identity_key_count: usize },
    PagedIndexRangeCollection {
        exact_key_count: usize,
        range_key_index: usize,
        identity_key_count: usize,
    },
    UniqueIndexLookup { key_count: usize },
    /// Any operation of another kind.
    Other,
}

/// Whether an operation names an index.
pub open spec fn names_index(op: SurfaceReadOpShape) -> bool {
    ||| op is PagedIndexCollection
    ||| op is PagedIndexRangeCollection
    ||| op is UniqueIndexLookup
}

/// How a collection read walks its records: the root in identity order, a
/// non-unique index under an exact prefix, a non-unique index over a range
/// on the column after the prefix, or one lookup in a unique index.
#[derive(Debug, Clone, Copy, PartialEq, Eq, Structural)]
pub enum SurfaceCollectionPlan {
    Root,
    Index { exact_key_count: usize, identity_key_count: usize },
    Range { exact_key_count: usize, range_key_index: usize, identity_key_count: usize },
    Unique { key_count: usize },
}

/// Why a checked operation cannot be planned as a collection read; each is a
/// mismatch between the checked program and what the runtime expects.
#[derive(Debug, Clone, Copy, PartialEq, Eq, Structural)]
pub enum SurfacePlanFault {
    IndexOutsideStore,
    CatalogIdMissing,
    CatalogIdMalformed,
    PagedUniqueIndex,
    PagedKeyShape,
    RangeUniqueIndex,
    RangeKeyShape,
    RangeKeyNotScalar,
    LookupNonUniqueIndex,
    LookupKeyShape,
    NotCollectionRead,
}

/// The diagnostic text of a planning fault.
pub open spec fn plan_fault_text(f: SurfacePlanFault) -> Seq<char> {
    match f {
        SurfacePlanFault::IndexOutsideStore => "checked surface collection index is outside the backing store"@,
        SurfacePlanFault::CatalogIdMissing => "checked store index catalog identity is missing"@,
        SurfacePlanFault::CatalogIdMalformed => "checked store index catalog identity is malformed"@,
        SurfacePlanFault::PagedUniqueIndex => "checked paged collection operation names a unique index"@,
        SurfacePlanFault::PagedKeyShape => "checked paged collection operation does not match the index key shape"@,
        SurfacePlanFault::RangeUniqueIndex => "checked range collection operation names a unique index"@,
        SurfacePlanFault::RangeKeyShape => "checked range collection operation does not match the index key shape"@,
        SurfacePlanFault::RangeKeyNotScalar => "checked range collection operation has a non-scalar range key"@,
        SurfacePlanFault::LookupNonUniqueIndex => "checked unique lookup operation names a non-unique index"@,
        SurfacePlanFault::LookupKeyShape => "checked unique lookup operation does not match the index key shape"@,
        SurfacePlanFault::NotCollectionRead => "checked surface operation is not a collection read"@,
    }
}

impl SurfacePlanFault {
    /// The diagnostic text.
    pub fn message(&self) -> (r: &'static str)
        ensures
            r@ == plan_fault_text(*self),
    {
        match self {
            SurfacePlanFault::IndexOutsideStore => "checked surface collection index is outside the backing store",
            SurfacePlanFault::CatalogIdMissing => "checked store index catalog identity is missing",
            SurfacePlanFault::CatalogIdMalformed => "checked store index catalog identity is malformed",
            SurfacePlanFault::PagedUniqueIndex => "checked paged collection operation names a unique index",
            SurfacePlanFault::PagedKeyShape => "checked paged collection operation does not match the index key shape",
            SurfacePlanFault::RangeUniqueIndex => "checked range collection operation names a unique index",
            SurfacePlanFault::RangeKeyShape => "checked range collection operation does not match the index key shape",
            SurfacePlanFault::RangeKeyNotScalar => "checked range collection operation has a non-scalar range key",
            SurfacePlanFault::LookupNonUniqueIndex => "checked unique lookup operation names a non-unique index",
            SurfacePlanFault::LookupKeyShape => "checked unique lookup operation does not match the index key shape",
            SurfacePlanFault::NotCollectionRead => "checked surface operation is not a collection read",
        }
    }
}

/// What is wrong with the index an operation names, before its own checks:
/// it indexes another store than the surface's, or its catalog identity is
/// missing or malformed.
pub open spec fn index_fault(index: SurfaceIndexFacts, surface_store: u32) -> Option<SurfacePlanFault> {
    if index.store != surface_store {
        Some(SurfacePlanFault::IndexOutsideStore)
    } else {
        match index.catalog_id {
            CatalogIdFact::Missing => Some(SurfacePlanFault::CatalogIdMissing),
            CatalogIdFact::Malformed => Some(SurfacePlanFault::CatalogIdMalformed),
            CatalogIdFact::WellFormed => None,
        }
    }
}

/// The plan of a collection read on a surface backed by `surface_store`,
/// whose store has `store_identity_keys` identity keys, given the operation
/// and the facts of the index it names: a paged read needs a non-unique
/// index whose columns are the exact prefix then the identity (with the
/// range column between them for a range read, a scalar one); a lookup
/// needs a unique index with as many columns as the lookup gives keys; a
/// root page must read the surface's own store.
pub open spec fn collection_plan_spec(
    op: SurfaceReadOpShape,
    surface_store: u32,
    index: Option<SurfaceIndexFacts>,
    store_identity_keys: nat,
) -> Result<SurfaceCollectionPlan, SurfacePlanFault> {
    match op {
        SurfaceReadOpShape::PagedRootCollection { store } => if store == surface_store {
            Ok(SurfaceCollectionPlan::Root)
        } else {
            Err(SurfacePlanFault::NotCollectionRead)
        },
        SurfaceReadOpShape::PagedIndexCollection { exact_key_count, identity_key_count } => {
            let ix = index.unwrap();
            if index_fault(ix, surface_store) is Some {
                Err(index_fault(ix, surface_store).unwrap())
            } else if ix.unique {
                Err(SurfacePlanFault::PagedUniqueIndex)
            } else if exact_key_count + identity_key_count != ix.key_is_scalar@.len()
                || identity_key_count != store_identity_keys {
                Err(SurfacePlanFault::PagedKeyShape)
            } else {
                Ok(SurfaceCollectionPlan::Index { exact_key_count, identity_key_count })
            }
        },
        SurfaceReadOpShape::PagedIndexRangeCollection {
            exact_key_count,
            range_key_index,
            identity_key_count,
        } => {
            let ix = index.unwrap();
            if index_fault(ix, surface_store) is Some {
                Err(index_fault(ix, surface_store).unwrap())
            } else if ix.unique {
                Err(SurfacePlanFault::RangeUniqueIndex)
            } else if exact_key_count + 1 + identity_key_count != ix.key_is_scalar@.len()
                || range_key_index != exact_key_count || identity_key_count != store_identity_keys {
                Err(SurfacePlanFault::RangeKeyShape)
            } else if !ix.key_is_scalar@[range_key_index as int] {
                Err(SurfacePlanFault::RangeKeyNotScalar)
            } else {
                Ok(SurfaceCollectionPlan::Range { exact_key_count, range_key_index, identity_key_count })
            }
        },
        SurfaceReadOpShape::UniqueIndexLookup { key_count } => {
            let ix = index.unwrap();
            if index_fault(ix, surface_store) is Some {
                Err(index_fault(ix, surface_store).unwrap())
            } else if !ix.unique {
                Err(SurfacePlanFault::LookupNonUniqueIndex)
            } else if key_count != ix.key_is_scalar@.len() {
                Err(SurfacePlanFault::LookupKeyShape)
            } else {
                Ok(SurfaceCollectionPlan::Unique { key_count })
            }
        },
        _ => Err(SurfacePlanFault::NotCollectionRead),
    }
}

fn check_index(index: &SurfaceIndexFacts, surface_store: u32) -> (r: Result<(), SurfacePlanFault>)
    ensures
        r is Err <==> index_fault(*index, surface_store) is Some,
        r is Err ==> r->Err_0 == index_fault(*index, surface_store).unwrap(),
{
    if index.store != surface_store {
        return Err(SurfacePlanFault::IndexOutsideStore);
    }
    match index.catalog_id {
        CatalogIdFact::Missing => Err(SurfacePlanFault::CatalogIdMissing),
        CatalogIdFact::Malformed => Err(SurfacePlanFault::CatalogIdMalformed),
        CatalogIdFact::WellFormed => Ok(()),
    }
}

/// Plans a collection read: see `collection_plan_spec`. An index operation
/// comes with the facts of the index it names.
pub fn collection_plan_kind(
    op: &SurfaceReadOpShape,
    surface_store: u32,
    index: Option<&SurfaceIndexFacts>,
    store_identity_keys: usize,
) -> (r: Result<SurfaceCollectionPlan, SurfacePlanFault>)
    requires
        names_index(*op) ==> index is Some,
    ensures
        r == collection_plan_spec(
            *op,
            surface_store,
            match index {
                Some(ix) => Some(*ix),
                None => None,
            },
            store_identity_keys as nat,
        ),
{
    match *op {
        SurfaceReadOpShape::PagedRootCollection { store } => if store == surface_store {
            Ok(SurfaceCollectionPlan::Root)
        } else {
            Err(SurfacePlanFault::NotCollectionRead)
        },
        SurfaceReadOpShape::PagedIndexCollection { exact_key_count, identity_key_count } => {
            let ix = index.unwrap();
            check_index(ix, surface_store)?;
            if ix.unique {
                return Err(SurfacePlanFault::PagedUniqueIndex);
            }
            let columns = ix.key_is_scalar.len();
            if exact_key_count > columns || columns - exact_key_count != identity_key_count
                || identity_key_count != store_identity_keys {
                return Err(SurfacePlanFault::PagedKeyShape);
            }
            Ok(SurfaceCollectionPlan::Index { exact_key_count, identity_key_count })
        },
        SurfaceReadOpShape::PagedIndexRangeCollection {
            exact_key_count,
            range_key_index,
            identity_key_count,
        } => {
            let ix = index.unwrap();
            check_index(ix, surface_store)?;
            if ix.unique {
                return Err(SurfacePlanFault::RangeUniqueIndex);
            }
            let columns = ix.key_is_scalar.len();
            if exact_key_count >= columns || columns - exact_key_count - 1 != identity_key_count
                || range_key_index != exact_key_count || identity_key_count != store_identity_keys {
                return Err(SurfacePlanFault::RangeKeyShape);
            }
            if !ix.key_is_scalar[range_key_index] {
                return Err(SurfacePlanFault::RangeKeyNotScalar);
            }
            Ok(SurfaceCollectionPlan::Range { exact_key_count, range_key_index, identity_key_count })
        },
        SurfaceReadOpShape::UniqueIndexLookup { key_count } => {
            let ix = index.unwrap();
            check_index(ix, surface_store)?;
            if !ix.unique {
                return Err(SurfacePlanFault::LookupNonUniqueIndex);
            }
            if key_count != ix.key_is_scalar.len() {
                return Err(SurfacePlanFault::LookupKeyShape);
            }
            Ok(SurfaceCollectionPlan::Unique { key_count })
        },
        _ => Err(SurfacePlanFault::NotCollectionRead),
    }
}

/// Which boundary a page cursor holds: the last root identity, the last
/// identity under an exact index prefix, or the last entry of an index range.
#[derive(Debug, Clone, Copy, PartialEq, Eq, Structural)]
pub enum PageBoundaryKind {
    RootIdentity,
    IndexIdentity,
    IndexRange,
}

/// A page cursor, as far as request validation reads it: whether it was
/// issued for the operation being read, the kind of its boundary, and
/// whether the exact keys and the range it carries equal the request's.
#[derive(Debug, Clone, Copy, PartialEq, Eq, Structural)]
pub struct PageCursorShape {
    pub same_operation: bool,
    pub boundary: PageBoundaryKind,
    pub exact_keys_match: bool,
    pub range_matches: bool,
}

/// Which bounds an index range request gives.
#[derive(Debug, Clone, Copy, PartialEq, Eq, Structural)]
pub struct RangeBoundsShape {
    pub has_lower: bool,
    pub has_upper: bool,
}

/// A collection page request, as far as validation against a plan reads
/// it: the page limit, how many exact index keys it gives, its range, if
/// any, and its cursor, if any. The values of the request's keys and of a
/// cursor boundary's keys are checked against the index columns' meanings
/// by the caller, which holds the key codec; this shape leaves them out.
#[derive(Debug, Clone, Copy, PartialEq, Eq, Structural)]
pub struct PageRequestShape {
    pub limit: usize,
    pub exact_key_count: usize,
    pub range: Option<RangeBoundsShape>,
    pub cursor: Option<PageCursorShape>,
}

/// The family a page-request fault belongs to.
#[derive(Debug, Clone, Copy, PartialEq, Eq, Structural)]
pub enum PageFaultKind {
    Request,
    Limit,
    Cursor,
    StaleCursor,
}

/// Why a page request does not fit its plan.
#[derive(Debug, Clone, Copy, PartialEq, Eq, Structural)]
pub enum PageRequestFault {
    LimitZero,
    LimitTooLarge { limit: usize },
    CursorOtherOperation,
    CursorShape,
    RootRange,
    RootExactKeys,
    IndexRange,
    IndexExactKeyCount { expected: usize, got: usize },
    IndexCursorBoundary,
    IndexCursorExactKeys,
    RangeMissing,
    RangeExactKeyCount { expected: usize, got: usize },
    RangeUnbounded,
    RangeCursorBoundary,
    RangeCursorArguments,
    UniqueIsLookup,
}

/// The family of a page-request fault.
pub open spec fn page_fault_kind(f: PageRequestFault) -> PageFaultKind {
    match f {
        PageRequestFault::LimitTooLarge { .. } => PageFaultKind::Limit,
        PageRequestFault::CursorOtherOperation => PageFaultKind::StaleCursor,
        PageRequestFault::CursorShape
        | PageRequestFault::IndexCursorBoundary
        | PageRequestFault::IndexCursorExactKeys
        | PageRequestFault::RangeCursorBoundary
        | PageRequestFault::RangeCursorArguments => PageFaultKind::Cursor,
        _ => PageFaultKind::Request,
    }
}

/// The diagnostic text of a page-request fault.
pub open spec fn page_fault_text(f: PageRequestFault) -> Seq<char> {
    match f {
        PageRequestFault::LimitZero => "surface page limit must be greater than zero"@,
        PageRequestFault::LimitTooLarge { limit } => "surface page limit "@ + decimal_chars(limit as nat)
            + " exceeds the maximum "@ + decimal_chars(SURFACE_MAX_PAGE_LIMIT as nat),
        PageRequestFault::CursorOtherOperation => "surface cursor targets a different operation"@,
        PageRequestFault::CursorShape => "surface cursor boundary does not match the collection shape"@,
        PageRequestFault::RootRange => "root collection pages do not take an index range"@,
        PageRequestFault::RootExactKeys => "root collection pages do not take exact index keys"@,
        PageRequestFault::IndexRange => "exact index collection pages do not take an index range"@,
        PageRequestFault::IndexExactKeyCount { expected, got } => "surface index page expects "@
            + decimal_chars(expected as nat) + " exact key(s), got "@ + decimal_chars(got as nat),
        PageRequestFault::IndexCursorBoundary => "surface cursor boundary does not match the index collection"@,
        PageRequestFault::IndexCursorExactKeys => "surface cursor exact arguments do not match the request"@,
        PageRequestFault::RangeMissing => "range index collection pages require an index range"@,
        PageRequestFault::RangeExactKeyCount { expected, got } => "surface range index page expects "@
            + decimal_chars(expected as nat) + " exact key(s), got "@ + decimal_chars(got as nat),
        PageRequestFault::RangeUnbounded => "surface range page requires at least one bound"@,
        PageRequestFault::RangeCursorBoundary => "surface cursor boundary does not match the range index collection"@,
        PageRequestFault::RangeCursorArguments => "surface cursor range arguments do not match the request"@,
        PageRequestFault::UniqueIsLookup => "unique surface collection operations are lookups, not pages"@,
    }
}

impl PageRequestFault {
    /// The family of this fault.
    pub fn kind(&self) -> (r: PageFaultKind)
        ensures
            r == page_fault_kind(*self),
    {
        match self {
            PageRequestFault::LimitTooLarge { .. } => PageFaultKind::Limit,
            PageRequestFault::CursorOtherOperation => PageFaultKind::StaleCursor,
            PageRequestFault::CursorShape
            | PageRequestFault::IndexCursorBoundary
            | PageRequestFault::IndexCursorExactKeys
            | PageRequestFault::RangeCursorBoundary
            | PageRequestFault::RangeCursorArguments => PageFaultKind::Cursor,
            _ => PageFaultKind::Request,
        }
    }

    /// The diagnostic text.
    pub fn message(&self) -> (r: String)
        ensures
            r@ == page_fault_text(*self),
    {
        let mut out = String::new();
        match self {
            PageRequestFault::LimitZero => push_str(&mut out, "surface page limit must be greater than zero"),
            PageRequestFault::LimitTooLarge { limit } => {
                push_str(&mut out, "surface page limit ");
                push_decimal(&mut out, *limit as u64);
                push_str(&mut out, " exceeds the maximum ");
                push_decimal(&mut out, SURFACE_MAX_PAGE_LIMIT as u64);
            },
            PageRequestFault::CursorOtherOperation => push_str(&mut out, "surface cursor targets a different operation"),
            PageRequestFault::CursorShape => push_str(&mut out, "surface cursor boundary does not match the collection shape"),
            PageRequestFault::RootRange => push_str(&mut out, "root collection pages do not take an index range"),
            PageRequestFault::RootExactKeys => push_str(&mut out, "root collection pages do not take exact index keys"),
            PageRequestFault::IndexRange => push_str(&mut out, "exact index collection pages do not take an index range"),
            PageRequestFault::IndexExactKeyCount { expected, got } => {
                push_str(&mut out, "surface index page expects ");
                push_decimal(&mut out, *expected as u64);
                push_str(&mut out, " exact key(s), got ");
                push_decimal(&mut out, *got as u64);
            },
            PageRequestFault::IndexCursorBoundary => push_str(&mut out, "surface cursor boundary does not match the index collection"),
            PageRequestFault::IndexCursorExactKeys => push_str(&mut out, "surface cursor exact arguments do not match the request"),
            PageRequestFault::RangeMissing => push_str(&mut out, "range index collection pages require an index range"),
            PageRequestFault::RangeExactKeyCount { expected, got } => {
                push_str(&mut out, "surface range index page expects ");
                push_decimal(&mut out, *expected as u64);
                push_str(&mut out, " exact key(s), got ");
                push_decimal(&mut out, *got as u64);
            },
            PageRequestFault::RangeUnbounded => push_str(&mut out, "surface range page requires at least one bound"),
            PageRequestFault::RangeCursorBoundary => push_str(&mut out, "surface cursor boundary does not match the range index collection"),
            PageRequestFault::RangeCursorArguments => push_str(&mut out, "surface cursor range arguments do not match the request"),
            PageRequestFault::UniqueIsLookup => push_str(&mut out, "unique surface collection operations are lookups, not pages"),
        }
        out
    }
}

/// Whether a cursor boundary of `boundary` kind belongs to pages of `plan`.
pub open spec fn boundary_fits(plan: SurfaceCollectionPlan, boundary: PageBoundaryKind) -> bool {
    match plan {
        SurfaceCollectionPlan::Root => boundary == PageBoundaryKind::RootIdentity,
        SurfaceCollectionPlan::Index { .. } => boundary == PageBoundaryKind::IndexIdentity,
        SurfaceCollectionPlan::Range { .. } => boundary == PageBoundaryKind::IndexRange,
        SurfaceCollectionPlan::Unique { .. } => false,
    }
}

/// Whether a page request fits its plan, checked in this order: the limit
/// lies in `1..=SURFACE_MAX_PAGE_LIMIT`; a cursor was issued for this
/// operation and holds a boundary of the plan's kind; then a root page takes
/// no range and no exact keys; an exact index page takes no range and as
/// many exact keys as the plan, and a cursor repeats those keys; a range
/// page takes a range with at least one bound and as many exact keys as the
/// plan, and a cursor repeats both; a unique lookup is never paged.
pub open spec fn page_request_spec(plan: SurfaceCollectionPlan, request: PageRequestShape) -> Result<
    (),
    PageRequestFault,
> {
    if request.limit == 0 {
        Err(PageRequestFault::LimitZero)
    } else if request.limit > SURFACE_MAX_PAGE_LIMIT {
        Err(PageRequestFault::LimitTooLarge { limit: request.limit })
    } else if request.cursor is Some && !request.cursor.unwrap().same_operation {
        Err(PageRequestFault::CursorOtherOperation)
    } else if request.cursor is Some && !boundary_fits(plan, request.cursor.unwrap().boundary) {
        Err(PageRequestFault::CursorShape)
    } else {
        match plan {
            SurfaceCollectionPlan::Root => if request.range is Some {
                Err(PageRequestFault::RootRange)
            } else if request.exact_key_count != 0 {
                Err(PageRequestFault::RootExactKeys)
            } else {
                Ok(())
            },
            SurfaceCollectionPlan::Index { exact_key_count, .. } => if request.range is Some {
                Err(PageRequestFault::IndexRange)
            } else if request.exact_key_count != exact_key_count {
                Err(
                    PageRequestFault::IndexExactKeyCount {
                        expected: exact_key_count,
                        got: request.exact_key_count,
                    },
                )
            } else if request.cursor is Some && request.cursor.unwrap().boundary
                != PageBoundaryKind::IndexIdentity {
                Err(PageRequestFault::IndexCursorBoundary)
            } else if request.cursor is Some && !request.cursor.unwrap().exact_keys_match {
                Err(PageRequestFault::IndexCursorExactKeys)
            } else {
                Ok(())
            },
            SurfaceCollectionPlan::Range { exact_key_count, .. } => if request.range is None {
                Err(PageRequestFault::RangeMissing)
            } else if request.exact_key_count != exact_key_count {
                Err(
                    PageRequestFault::RangeExactKeyCount {
                        expected: exact_key_count,
                        got: request.exact_key_count,
                    },
                )
            } else if !request.range.unwrap().has_lower && !request.range.unwrap().has_upper {
                Err(PageRequestFault::RangeUnbounded)
            } else if request.cursor is Some && request.cursor.unwrap().boundary
                != PageBoundaryKind::IndexRange {
                Err(PageRequestFault::RangeCursorBoundary)
            } else if request.cursor is Some && (!request.cursor.unwrap().exact_keys_match
                || !request.cursor.unwrap().range_matches) {
                Err(PageRequestFault::RangeCursorArguments)
            } else {
                Ok(())
            },
            SurfaceCollectionPlan::Unique { .. } => Err(PageRequestFault::UniqueIsLookup),
        }
    }
}

/// Validates a page request against its plan: see `page_request_spec`.
pub fn validate_page_request(plan: &SurfaceCollectionPlan, request: &PageRequestShape) -> (r: Result<
    (),
    PageRequestFault,
>)
    ensures
        r == page_request_spec(*plan, *request),
{
    if request.limit == 0 {
        return Err(PageRequestFault::LimitZero);
    }
    if request.limit > SURFACE_MAX_PAGE_LIMIT {
        return Err(PageRequestFault::LimitTooLarge { limit: request.limit });
    }
    if let Some(cursor) = request.cursor {
        if !cursor.same_operation {
            return Err(PageRequestFault::CursorOtherOperation);
        }
        let fits = match (*plan, cursor.boundary) {
            (SurfaceCollectionPlan::Root, PageBoundaryKind::RootIdentity) => true,
            (SurfaceCollectionPlan::Index { .. }, PageBoundaryKind::IndexIdentity) => true,
            (SurfaceCollectionPlan::Range { .. }, PageBoundaryKind::IndexRange) => true,
            _ => false,
        };
        if !fits {
            return Err(PageRequestFault::CursorShape);
        }
    }
    match *plan {
        SurfaceCollectionPlan::Root => {
            if request.range.is_some() {
                return Err(PageRequestFault::RootRange);
            }
            if request.exact_key_count != 0 {
                return Err(PageRequestFault::RootExactKeys);
            }
            Ok(())
        },
        SurfaceCollectionPlan::Index { exact_key_count, .. } => {
            if request.range.is_some() {
                return Err(PageRequestFault::IndexRange);
            }
            if request.exact_key_count != exact_key_count {
                return Err(
                    PageRequestFault::IndexExactKeyCount {
                        expected: exact_key_count,
                        got: request.exact_key_count,
                    },
                );
            }
            if let Some(cursor) = request.cursor {
                if !matches!(cursor.boundary, PageBoundaryKind::IndexIdentity) {
                    return Err(PageRequestFault::IndexCursorBoundary);
                }
                if !cursor.exact_keys_match {
                    return Err(PageRequestFault::IndexCursorExactKeys);
                }
            }
            Ok(())
        },
        SurfaceCollectionPlan::Range { exact_key_count, .. } => {
            let range = match request.range {
                Some(range) => range,
                None => return Err(PageRequestFault::RangeMissing),
            };
            if request.exact_key_count != exact_key_count {
                return Err(
                    PageRequestFault::RangeExactKeyCount {
                        expected: exact_key_count,
                        got: request.exact_key_count,
                    },
                );
            }
            if !range.has_lower && !range.has_upper {
                return Err(PageRequestFault::RangeUnbounded);
            }
            if let Some(cursor) = request.cursor {
                if !matches!(cursor.boundary, PageBoundaryKind::IndexRange) {
                    return Err(PageRequestFault::RangeCursorBoundary);
                }
                if !cursor.exact_keys_match || !cursor.range_matches {
                    return Err(PageRequestFault::RangeCursorArguments);
                }
            }
            Ok(())
        },
        SurfaceCollectionPlan::Unique { .. } => Err(PageRequestFault::UniqueIsLookup),
    }
}

/// How many anchors to scan for a page of `limit` rows: one past the limit,
/// so that whether another page follows shows in the scan itself.
pub fn page_scan_count(limit: usize) -> (r: usize)
    ensures
        r == (if limit < usize::MAX {
            limit + 1
        } else {
            limit as int
        }),
{
    limit.saturating_add(1)
}

/// A page cut from the anchors a scan returned: its rows, in scan order, and
/// whether another page follows.
pub struct PageCut<T> {
    pub rows: Vec<T>,
    pub has_more: bool,
}

/// Cuts a page of at most `limit` rows from the anchors a scan returned in
/// order: the page keeps the first `limit` anchors, and another page follows
/// exactly when the scan returned more than `limit`.
pub fn cut_page<T>(anchors: Vec<T>, limit: usize) -> (r: PageCut<T>)
    ensures
        r.has_more == (anchors@.len() > limit),
        r.rows@ == (if anchors@.len() > limit {
            anchors@.take(limit as int)
        } else {
            anchors@
        }),
{
    let has_more = anchors.len() > limit;
    let mut rows = anchors;
    rows.truncate(limit);
    PageCut { rows, has_more }
}

impl<T> PageCut<T> {
    /// The anchor the next page's cursor resumes after: the last row of the
    /// page, when another page follows.
    pub fn resume_after(&self) -> (r: Option<&T>)
        ensures
            r == (if self.has_more && self.rows@.len() > 0 {
                Some(&self.rows@.last())
            } else {
                None
            }),
    {
        if self.has_more && self.rows.len() > 0 {
            Some(&self.rows[self.rows.len() - 1])
        } else {
            None
        }
    }
}

/// The most bytes one surface read may materialize.
pub const SURFACE_MAX_MATERIALIZED_BYTES: usize = 8 * 1024 * 1024;

/// A surface read's materialization budget was exceeded.
#[derive(Debug, Clone, Copy, PartialEq, Eq, Structural)]
pub struct BudgetExceeded;

impl BudgetExceeded {
    /// The diagnostic text.
    pub fn message(&self) -> (r: &'static str)
        ensures
            r@ == "surface read materialization byte budget exceeded"@,
    {
        "surface read materialization byte budget exceeded"
    }
}

/// The bytes a surface read may still materialize.
#[derive(Debug, Clone, Copy, PartialEq, Eq, Structural)]
pub struct SurfaceMaterializationBudget {
    remaining_bytes: usize,
}

impl SurfaceMaterializationBudget {
    /// The bytes still allowed.
    pub closed spec fn remaining(&self) -> usize {
        self.remaining_bytes
    }

    /// A full budget.
    pub fn new() -> (r: Self)
        ensures
            r.remaining() == SURFACE_MAX_MATERIALIZED_BYTES,
    {
        SurfaceMaterializationBudget { remaining_bytes: SURFACE_MAX_MATERIALIZED_BYTES }
    }

    /// Spends `bytes` of the budget, or refuses when fewer remain.
    pub fn take(&mut self, bytes: usize) -> (r: Result<(), BudgetExceeded>)
        ensures
            bytes > old(self).remaining() ==> r is Err && *final(self) == *old(self),
            bytes <= old(self).remaining() ==> r is Ok && final(self).remaining() == old(
                self,
            ).remaining() - bytes,
    {
        if bytes > self.remaining_bytes {
            return Err(BudgetExceeded);
        }
        self.remaining_bytes = self.remaining_bytes - bytes;
        Ok(())
    }
}

} // verus!
