use marrow_run::host::{FixedNondeterminism, Nondeterminism};
use marrow_run::json::{JsonLimits, JsonPolicyFault, MAX_DEPTH, MAX_NODES, MAX_STRING_BYTES};
use marrow_run::schema::{index_walk_start, IndexArgShape, IndexWalkRefusal, IndexWalkStart, WalkTerminal};
use marrow_run::surface::{
    collection_plan_kind, cut_page, page_scan_count, validate_page_request, CatalogIdFact,
    PageBoundaryKind, PageCursorShape, PageFaultKind, PageRequestFault, PageRequestShape,
    RangeBoundsShape, SurfaceCollectionPlan, SurfaceIndexFacts, SurfacePlanFault,
    SurfaceReadOpShape, SURFACE_MAX_PAGE_LIMIT,
};

fn index(store: u32, unique: bool, catalog_id: CatalogIdFact, key_is_scalar: &[bool]) -> SurfaceIndexFacts {
    SurfaceIndexFacts { store, unique, catalog_id, key_is_scalar: key_is_scalar.to_vec() }
}

#[test]
fn fixed_provider_reports_its_values_across_any_run_of_calls() {
    let mut fixed = FixedNondeterminism::new(1_700_000_000_000_000_000, 0xfeed);
    for round in 0..5 {
        if round % 2 == 0 {
            assert_eq!(fixed.entropy_u128(), 0xfeed);
        }
        assert_eq!(fixed.now_nanos(), 1_700_000_000_000_000_000);
        assert_eq!(fixed.entropy_u128(), 0xfeed);
    }
    assert_eq!(fixed, FixedNondeterminism::new(1_700_000_000_000_000_000, 0xfeed));
}

#[test]
fn root_pages_plan_only_on_the_surface_store() {
    let op = SurfaceReadOpShape::PagedRootCollection { store: 3 };
    assert_eq!(collection_plan_kind(&op, 3, None, 1), Ok(SurfaceCollectionPlan::Root));
    assert_eq!(collection_plan_kind(&op, 4, None, 1), Err(SurfacePlanFault::NotCollectionRead));
    assert_eq!(
        collection_plan_kind(&SurfaceReadOpShape::SingletonRead { store: 3 }, 3, None, 1),
        Err(SurfacePlanFault::NotCollectionRead)
    );
    assert_eq!(
        collection_plan_kind(&SurfaceReadOpShape::Other, 3, None, 1),
        Err(SurfacePlanFault::NotCollectionRead)
    );
    assert_eq!(
        SurfacePlanFault::NotCollectionRead.message(),
        "checked surface operation is not a collection read"
    );
}

#[test]
fn index_pages_need_a_matching_non_unique_index() {
    let op = SurfaceReadOpShape::PagedIndexCollection { exact_key_count: 1, identity_key_count: 1 };
    let good = index(2, false, CatalogIdFact::WellFormed, &[true, true]);
    assert_eq!(
        collection_plan_kind(&op, 2, Some(&good), 1),
        Ok(SurfaceCollectionPlan::Index { exact_key_count: 1, identity_key_count: 1 })
    );
    let elsewhere = index(9, false, CatalogIdFact::WellFormed, &[true, true]);
    assert_eq!(collection_plan_kind(&op, 2, Some(&elsewhere), 1), Err(SurfacePlanFault::IndexOutsideStore));
    let missing = index(2, false, CatalogIdFact::Missing, &[true, true]);
    assert_eq!(collection_plan_kind(&op, 2, Some(&missing), 1), Err(SurfacePlanFault::CatalogIdMissing));
    let malformed = index(2, false, CatalogIdFact::Malformed, &[true, true]);
    assert_eq!(collection_plan_kind(&op, 2, Some(&malformed), 1), Err(SurfacePlanFault::CatalogIdMalformed));
    let unique = index(2, true, CatalogIdFact::WellFormed, &[true, true]);
    assert_eq!(collection_plan_kind(&op, 2, Some(&unique), 1), Err(SurfacePlanFault::PagedUniqueIndex));
    let wide = index(2, false, CatalogIdFact::WellFormed, &[true, true, true]);
    assert_eq!(collection_plan_kind(&op, 2, Some(&wide), 1), Err(SurfacePlanFault::PagedKeyShape));
    assert_eq!(collection_plan_kind(&op, 2, Some(&good), 2), Err(SurfacePlanFault::PagedKeyShape));
    assert_eq!(
        SurfacePlanFault::PagedKeyShape.message(),
        "checked paged collection operation does not match the index key shape"
    );
    assert_eq!(
        SurfacePlanFault::IndexOutsideStore.message(),
        "checked surface collection index is outside the backing store"
    );
}

#[test]
fn range_pages_need_a_scalar_range_column_after_the_prefix() {
    let op = SurfaceReadOpShape::PagedIndexRangeCollection {
        exact_key_count: 1,
        range_key_index: 1,
        identity_key_count: 1,
    };
    let good = index(5, false, CatalogIdFact::WellFormed, &[false, true, true]);
    assert_eq!(
        collection_plan_kind(&op, 5, Some(&good), 1),
        Ok(SurfaceCollectionPlan::Range { exact_key_count: 1, range_key_index: 1, identity_key_count: 1 })
    );
    let unique = index(5, true, CatalogIdFact::WellFormed, &[false, true, true]);
    assert_eq!(collection_plan_kind(&op, 5, Some(&unique), 1), Err(SurfacePlanFault::RangeUniqueIndex));
    let short = index(5, false, CatalogIdFact::WellFormed, &[false, true]);
    assert_eq!(collection_plan_kind(&op, 5, Some(&short), 1), Err(SurfacePlanFault::RangeKeyShape));
    let skewed = SurfaceReadOpShape::PagedIndexRangeCollection {
        exact_key_count: 1,
        range_key_index: 0,
        identity_key_count: 1,
    };
    assert_eq!(collection_plan_kind(&skewed, 5, Some(&good), 1), Err(SurfacePlanFault::RangeKeyShape));
    let enum_range = index(5, false, CatalogIdFact::WellFormed, &[true, false, true]);
    assert_eq!(collection_plan_kind(&op, 5, Some(&enum_range), 1), Err(SurfacePlanFault::RangeKeyNotScalar));
    assert_eq!(
        SurfacePlanFault::RangeKeyNotScalar.message(),
        "checked range collection operation has a non-scalar range key"
    );
}

#[test]
fn unique_lookups_need_a_unique_index_of_their_width() {
    let op = SurfaceReadOpShape::UniqueIndexLookup { key_count: 2 };
    let good = index(1, true, CatalogIdFact::WellFormed, &[true, false]);
    assert_eq!(collection_plan_kind(&op, 1, Some(&good), 0), Ok(SurfaceCollectionPlan::Unique { key_count: 2 }));
    let plain = index(1, false, CatalogIdFact::WellFormed, &[true, false]);
    assert_eq!(collection_plan_kind(&op, 1, Some(&plain), 0), Err(SurfacePlanFault::LookupNonUniqueIndex));
    let narrow = index(1, true, CatalogIdFact::WellFormed, &[true]);
    assert_eq!(collection_plan_kind(&op, 1, Some(&narrow), 0), Err(SurfacePlanFault::LookupKeyShape));
    assert_eq!(
        SurfacePlanFault::LookupNonUniqueIndex.message(),
        "checked unique lookup operation names a non-unique index"
    );
}

fn request(limit: usize, exact_key_count: usize) -> PageRequestShape {
    PageRequestShape { limit, exact_key_count, range: None, cursor: None }
}

fn cursor(boundary: PageBoundaryKind) -> PageCursorShape {
    PageCursorShape { same_operation: true, boundary, exact_keys_match: true, range_matches: true }
}

#[test]
fn page_limits_lie_between_one_and_the_maximum() {
    let root = SurfaceCollectionPlan::Root;
    assert_eq!(validate_page_request(&root, &request(0, 0)), Err(PageRequestFault::LimitZero));
    assert_eq!(validate_page_request(&root, &request(1, 0)), Ok(()));
    assert_eq!(validate_page_request(&root, &request(SURFACE_MAX_PAGE_LIMIT, 0)), Ok(()));
    let too_many = validate_page_request(&root, &request(129, 0)).unwrap_err();
    assert_eq!(too_many, PageRequestFault::LimitTooLarge { limit: 129 });
    assert_eq!(too_many.kind(), PageFaultKind::Limit);
    assert_eq!(too_many.message(), "surface page limit 129 exceeds the maximum 128");
    assert_eq!(PageRequestFault::LimitZero.message(), "surface page limit must be greater than zero");
    assert_eq!(PageRequestFault::LimitZero.kind(), PageFaultKind::Request);
}

#[test]
fn cursors_must_come_from_the_same_operation_and_shape() {
    let root = SurfaceCollectionPlan::Root;
    let mut stale = request(10, 0);
    stale.cursor = Some(PageCursorShape { same_operation: false, ..cursor(PageBoundaryKind::RootIdentity) });
    let fault = validate_page_request(&root, &stale).unwrap_err();
    assert_eq!(fault, PageRequestFault::CursorOtherOperation);
    assert_eq!(fault.kind(), PageFaultKind::StaleCursor);
    assert_eq!(fault.message(), "surface cursor targets a different operation");
    let mut foreign = request(10, 0);
    foreign.cursor = Some(cursor(PageBoundaryKind::IndexRange));
    assert_eq!(validate_page_request(&root, &foreign), Err(PageRequestFault::CursorShape));
    let mut resumed = request(10, 0);
    resumed.cursor = Some(cursor(PageBoundaryKind::RootIdentity));
    assert_eq!(validate_page_request(&root, &resumed), Ok(()));
    let unique = SurfaceCollectionPlan::Unique { key_count: 1 };
    assert_eq!(validate_page_request(&unique, &resumed), Err(PageRequestFault::CursorShape));
    assert_eq!(validate_page_request(&unique, &request(10, 1)), Err(PageRequestFault::UniqueIsLookup));
    assert_eq!(
        PageRequestFault::UniqueIsLookup.message(),
        "unique surface collection operations are lookups, not pages"
    );
}

#[test]
fn root_and_index_pages_check_range_and_exact_keys() {
    let root = SurfaceCollectionPlan::Root;
    let mut ranged = request(5, 0);
    ranged.range = Some(RangeBoundsShape { has_lower: true, has_upper: false });
    assert_eq!(validate_page_request(&root, &ranged), Err(PageRequestFault::RootRange));
    assert_eq!(validate_page_request(&root, &request(5, 1)), Err(PageRequestFault::RootExactKeys));
    let plan = SurfaceCollectionPlan::Index { exact_key_count: 2, identity_key_count: 1 };
    assert_eq!(validate_page_request(&plan, &ranged), Err(PageRequestFault::IndexRange));
    let fault = validate_page_request(&plan, &request(5, 1)).unwrap_err();
    assert_eq!(fault, PageRequestFault::IndexExactKeyCount { expected: 2, got: 1 });
    assert_eq!(fault.message(), "surface index page expects 2 exact key(s), got 1");
    assert_eq!(validate_page_request(&plan, &request(5, 2)), Ok(()));
    let mut moved = request(5, 2);
    moved.cursor = Some(PageCursorShape { exact_keys_match: false, ..cursor(PageBoundaryKind::IndexIdentity) });
    let fault = validate_page_request(&plan, &moved).unwrap_err();
    assert_eq!(fault, PageRequestFault::IndexCursorExactKeys);
    assert_eq!(fault.kind(), PageFaultKind::Cursor);
}

#[test]
fn range_pages_need_a_bounded_range_and_a_matching_cursor() {
    let plan = SurfaceCollectionPlan::Range { exact_key_count: 1, range_key_index: 1, identity_key_count: 1 };
    assert_eq!(validate_page_request(&plan, &request(5, 1)), Err(PageRequestFault::RangeMissing));
    let mut open = request(5, 1);
    open.range = Some(RangeBoundsShape { has_lower: false, has_upper: false });
    assert_eq!(validate_page_request(&plan, &open), Err(PageRequestFault::RangeUnbounded));
    let mut bounded = request(5, 0);
    bounded.range = Some(RangeBoundsShape { has_lower: false, has_upper: true });
    let fault = validate_page_request(&plan, &bounded).unwrap_err();
    assert_eq!(fault.message(), "surface range index page expects 1 exact key(s), got 0");
    bounded.exact_key_count = 1;
    assert_eq!(validate_page_request(&plan, &bounded), Ok(()));
    bounded.cursor = Some(PageCursorShape { range_matches: false, ..cursor(PageBoundaryKind::IndexRange) });
    assert_eq!(validate_page_request(&plan, &bounded), Err(PageRequestFault::RangeCursorArguments));
    bounded.cursor = Some(cursor(PageBoundaryKind::IndexRange));
    assert_eq!(validate_page_request(&plan, &bounded), Ok(()));
}

#[test]
fn pages_are_cut_one_past_the_limit() {
    assert_eq!(page_scan_count(10), 11);
    assert_eq!(page_scan_count(usize::MAX), usize::MAX);
    let cut = cut_page(vec!["a", "b", "c", "d"], 3);
    assert_eq!(cut.rows, vec!["a", "b", "c"]);
    assert!(cut.has_more);
    assert_eq!(cut.resume_after(), Some(&"c"));
    let last = cut_page(vec!["a", "b"], 3);
    assert_eq!(last.rows, vec!["a", "b"]);
    assert!(!last.has_more);
    assert_eq!(last.resume_after(), None);
    let exact = cut_page(vec![1, 2, 3], 3);
    assert!(!exact.has_more);
    assert_eq!(exact.resume_after(), None);
}

fn arg(named: bool, is_range: bool) -> IndexArgShape {
    IndexArgShape { named, is_range }
}

fn terminal(name: &str, unique: bool, arg_count: usize, args: Vec<IndexArgShape>) -> WalkTerminal {
    WalkTerminal::Index { name: name.to_string(), unique, arg_count, args }
}

#[test]
fn index_walks_start_after_the_exact_prefix() {
    let indexes = vec!["by_title".to_string(), "by_author".to_string()];
    assert_eq!(index_walk_start(&WalkTerminal::Other, &indexes), Ok(None));
    assert_eq!(index_walk_start(&terminal("by_author", true, 2, vec![]), &indexes), Ok(None));
    assert_eq!(
        index_walk_start(&terminal("by_author", false, 3, vec![arg(false, false)]), &indexes),
        Ok(Some(IndexWalkStart { index: 1, exact: 1, ranged: false }))
    );
    assert_eq!(
        index_walk_start(&terminal("by_title", false, 3, vec![arg(false, false), arg(false, true), arg(true, false)]), &indexes),
        Ok(Some(IndexWalkStart { index: 0, exact: 1, ranged: true }))
    );
    assert_eq!(
        index_walk_start(&terminal("by_title", false, 1, vec![arg(false, false), arg(false, false)]), &indexes),
        Err(IndexWalkRefusal::TooManyArguments)
    );
    assert_eq!(
        index_walk_start(&terminal("by_year", false, 2, vec![]), &indexes),
        Err(IndexWalkRefusal::UnknownIndex)
    );
    assert_eq!(
        index_walk_start(&terminal("by_title", false, 2, vec![arg(false, false), arg(true, false)]), &indexes),
        Err(IndexWalkRefusal::NamedArgument)
    );
    assert_eq!(IndexWalkRefusal::TooManyArguments.construct(), "iterating this saved path");
    assert_eq!(IndexWalkRefusal::UnknownIndex.construct(), "this index lookup");
    assert_eq!(IndexWalkRefusal::NamedArgument.construct(), "an index lookup with named arguments");
}

#[test]
fn json_limits_refuse_past_the_policy() {
    let mut limits = JsonLimits::new();
    assert_eq!(limits.record_node(3), Ok(()));
    assert_eq!(limits.record_string("héllo"), Ok(()));
    assert_eq!(limits, JsonLimits { nodes: 1, max_depth: 3, max_string_bytes: 6 });
    assert_eq!(limits.record_node(1), Ok(()));
    assert_eq!(limits.max_depth, 3);
    assert_eq!(limits.record_node(MAX_DEPTH + 1), Err(JsonPolicyFault::StructureTooLarge));
    assert_eq!(JsonPolicyFault::StructureTooLarge.message(), "JSON structure is too large");

    let mut many = JsonLimits { nodes: MAX_NODES - 1, max_depth: 0, max_string_bytes: 0 };
    assert_eq!(many.record_node(0), Ok(()));
    assert_eq!(many.record_node(0), Err(JsonPolicyFault::StructureTooLarge));

    let mut strings = JsonLimits::new();
    let long = "x".repeat(MAX_STRING_BYTES + 1);
    assert_eq!(strings.record_string(&long), Err(JsonPolicyFault::StringTooLarge));
    assert_eq!(JsonPolicyFault::StringTooLarge.message(), "JSON string is too large");
}
