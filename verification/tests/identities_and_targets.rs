use marrow_run::csv::{format_row, parse_records};
use marrow_run::digest::slug;
use marrow_run::host::{FixedNondeterminism, Host};
use marrow_run::identity::{identity_arg_plan, IdentityArgShape, IdentityFault};
use marrow_run::schema::{
    identity_addressing, index_walk_shape, missing_identity_message, IdentityAddressing,
    IndexRangeKind, IndexWalkShape, neighbor_target_plan, KeyDef, LoweredProbe, NeighborFault, NeighborPlan, NeighborProbe,
    NeighborSeek, SavedKey, ScalarType,
};
use marrow_run::session::{pick_test_cases, TestCase, TestFunction, TestModule};
use marrow_run::text::trim;

fn names(items: &[&str]) -> Vec<String> {
    items.iter().map(|s| s.to_string()).collect()
}

fn positional(n: usize) -> Vec<IdentityArgShape> {
    (0..n).map(|_| IdentityArgShape { name: None, is_out: false }).collect()
}

fn named(items: &[&str]) -> Vec<IdentityArgShape> {
    items.iter().map(|s| IdentityArgShape { name: Some(s.to_string()), is_out: false }).collect()
}

#[test]
fn identity_arguments_plan_keys_in_declared_order() {
    let keys = names(&["book", "member"]);
    assert_eq!(identity_arg_plan(&keys, &positional(2)), Ok(vec![0, 1]));
    assert_eq!(identity_arg_plan(&keys, &named(&["member", "book"])), Ok(vec![1, 0]));
    assert_eq!(identity_arg_plan(&keys, &named(&["book", "member"])), Ok(vec![0, 1]));
    assert_eq!(identity_arg_plan(&names(&["id"]), &positional(1)), Ok(vec![0]));
}

#[test]
fn identity_arguments_refused_with_their_faults() {
    let keys = names(&["book", "member"]);
    assert_eq!(identity_arg_plan(&vec![], &positional(1)), Err(IdentityFault::NoIdentityKeys));
    let mut with_out = positional(2);
    with_out[1].is_out = true;
    assert_eq!(identity_arg_plan(&keys, &with_out), Err(IdentityFault::OutArgument));
    assert_eq!(identity_arg_plan(&keys, &positional(3)), Err(IdentityFault::Arity { expected: 2, got: 3 }));
    let mut mixed = named(&["book", "member"]);
    mixed[0].name = None;
    assert_eq!(identity_arg_plan(&keys, &mixed), Err(IdentityFault::MixedShapes));
    assert_eq!(identity_arg_plan(&keys, &named(&["book", "reader"])), Err(IdentityFault::MissingKey { index: 1 }));
    assert_eq!(
        IdentityFault::Arity { expected: 2, got: 3 }.message("Loan", &keys),
        "`Loan::Id` takes 2 key(s), got 3"
    );
    assert_eq!(IdentityFault::MissingKey { index: 1 }.message("Loan", &keys), "identity key `member` is missing");
    assert_eq!(IdentityFault::OutArgument.message("Loan", &keys), "an identity key cannot be an out argument");
    assert_eq!(
        IdentityFault::MixedShapes.message("Loan", &keys),
        "an identity takes either positional or named keys, not both"
    );
}

fn lowered(record: bool, identity: usize, layers: Vec<usize>, params: usize) -> NeighborProbe {
    NeighborProbe::Lowered(LoweredProbe {
        record_terminal: record,
        identity: (0..identity as i64).map(SavedKey::Int).collect(),
        layers: layers.into_iter().map(|n| (0..n as i64).map(SavedKey::Int).collect()).collect(),
        last_layer_params: (0..params)
            .map(|i| KeyDef { name: format!("k{i}"), scalar: Some(ScalarType::Int) })
            .collect(),
    })
}

#[test]
fn neighbor_targets_choose_where_to_seek() {
    assert_eq!(neighbor_target_plan(&NeighborProbe::DirectRoot), Ok(Some(NeighborPlan::Record { anchored: false })));
    assert_eq!(neighbor_target_plan(&NeighborProbe::NotLowered), Ok(None));
    assert_eq!(neighbor_target_plan(&lowered(false, 1, vec![], 0)), Err(NeighborFault::UnsupportedPath));
    assert_eq!(neighbor_target_plan(&lowered(true, 1, vec![], 0)), Ok(Some(NeighborPlan::Record { anchored: true })));
    assert_eq!(neighbor_target_plan(&lowered(true, 2, vec![], 0)), Err(NeighborFault::CompositeIdentity));
    assert_eq!(
        neighbor_target_plan(&lowered(true, 1, vec![1], 2)),
        Ok(Some(NeighborPlan::Data(NeighborSeek { prefix_len: 1, anchored: false, expected_key: Some(ScalarType::Int) })))
    );
    assert_eq!(
        neighbor_target_plan(&lowered(true, 1, vec![2], 2)),
        Ok(Some(NeighborPlan::Data(NeighborSeek { prefix_len: 1, anchored: true, expected_key: Some(ScalarType::Int) })))
    );
    assert_eq!(neighbor_target_plan(&lowered(true, 1, vec![0], 0)), Err(NeighborFault::UnsupportedPath));
    assert_eq!(NeighborFault::UnsupportedPath.message(), "`next`/`prev` of this path");
}

fn function(name: &str, public: bool, params: usize) -> TestFunction {
    TestFunction { name: name.into(), public, param_count: params }
}

#[test]
fn test_cases_are_the_public_parameterless_test_functions() {
    let modules = vec![
        TestModule { name: "app".into(), source_file: "src/app.mw".into(), functions: vec![function("main", true, 0)] },
        TestModule {
            name: "app_test".into(),
            source_file: "tests/app_test.mw".into(),
            functions: vec![function("adds", true, 0), function("helper", false, 0), function("takes", true, 1), function("subtracts", true, 0)],
        },
        TestModule { name: "more_test".into(), source_file: "tests/more.mw".into(), functions: vec![function("one", true, 0)] },
    ];
    let case = |name: &str, file: &str, module: usize, function: usize| TestCase {
        name: name.into(),
        source_file: file.into(),
        module,
        function,
    };
    assert_eq!(
        pick_test_cases(&modules, 1),
        vec![
            case("app_test::adds", "tests/app_test.mw", 1, 0),
            case("app_test::subtracts", "tests/app_test.mw", 1, 3),
            case("more_test::one", "tests/more.mw", 2, 0),
        ]
    );
    assert!(pick_test_cases(&modules, 3).is_empty());
}

#[test]
fn a_formatted_line_reads_back_as_its_row() {
    for cells in [names(&["a", "b,c", "say \"hi\"", "x\ny"]), names(&[""]), names(&["", ""]), names(&["plain"])] {
        let line = format!("{}\n", format_row(&cells));
        assert_eq!(parse_records(&line), Ok(vec![cells.clone()]));
    }
}

#[test]
fn slugs_join_alphanumeric_runs() {
    assert_eq!(slug("  --Hello__World--2024!! "), "hello-world-2024");
    assert_eq!(slug("ÄBC déf"), "bc-d-f");
    assert_eq!(slug("!!!"), "");
}

#[test]
fn trim_matches_std_on_every_white_space_char() {
    for code in 0u32..0x3100 {
        if let Some(c) = char::from_u32(code) {
            let text = format!("{c}x{c}");
            assert_eq!(trim(&text), text.trim(), "U+{code:04X}");
        }
    }
}

#[test]
fn a_fixed_provider_fixes_the_clock() {
    let host = Host::new().with_nondeterminism(&FixedNondeterminism::new(42, 7));
    assert_eq!(host.clock(), Some(42));
    assert!(!host.filesystem());
}

#[test]
fn saved_paths_address_their_identity() {
    assert_eq!(identity_addressing(true, 0, 2), IdentityAddressing::NotNeeded);
    assert_eq!(identity_addressing(false, 0, 2), IdentityAddressing::MissingKeys { expected: 2 });
    assert_eq!(identity_addressing(false, 1, 2), IdentityAddressing::Lower);
    assert_eq!(identity_addressing(false, 0, 0), IdentityAddressing::Lower);
    assert_eq!(
        missing_identity_message("books", 1),
        "`^books` expects 1 identity key(s), got 0; address a record with `^books(id)`"
    );
}

#[test]
fn index_walks_take_their_shape_from_the_range() {
    let shape = |range, identity_start, walk_depth| IndexWalkShape { range, identity_start, walk_depth };
    assert_eq!(index_walk_shape(3, 1, 1, None, false), shape(None, 2, 2));
    assert_eq!(index_walk_shape(3, 1, 1, None, true), shape(Some(IndexRangeKind::EnumMembers), 2, 1));
    assert_eq!(index_walk_shape(3, 1, 0, Some(IndexRangeKind::Scalar), false), shape(Some(IndexRangeKind::Scalar), 2, 0));
    assert_eq!(index_walk_shape(2, 3, 2, Some(IndexRangeKind::EnumMembers), true), shape(Some(IndexRangeKind::EnumMembers), 0, 0));
}
