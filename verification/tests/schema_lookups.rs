use marrow_run::schema::{
    enum_range_members, guard_key_type, guard_sequence_position, members_in_dir,
    reject_non_positive_sequence_key, AbsentPosition, Direction, ForeignEnumBound, KeyTypeFault,
    declares_unkeyed_group, enum_in, is_group_base, is_resource_type, is_saved_path,
    neighbor_seek, resolve_enum, resource_group_members, Element, EnumSchema, KeyDef, MemberNode,
    ModuleSchema, NeighborSeek, PathExpr, ProgramSchema, ResourceSchema, SavedKey, SavedRoot,
    ScalarType,
};

fn enum_schema(name: &str, members: &[&str]) -> EnumSchema {
    EnumSchema { name: name.into(), members: members.iter().map(|m| m.to_string()).collect() }
}

fn node(name: &str, keyed: bool, element: Element, children: Vec<usize>) -> MemberNode {
    let key_params = if keyed {
        vec![KeyDef { name: "k".into(), scalar: Some(ScalarType::Int) }]
    } else {
        vec![]
    };
    MemberNode { name: name.into(), key_params, element, children }
}

fn program() -> ProgramSchema {
    let nodes = vec![
        node("title", false, Element::Slot(Some(ScalarType::Str)), vec![]),
        node("versions", true, Element::Group, vec![2, 3, 4]),
        node("note", false, Element::Slot(Some(ScalarType::Str)), vec![]),
        node("rank", false, Element::Slot(None), vec![]),
        node("tags", true, Element::Slot(Some(ScalarType::Bool)), vec![]),
        node("meta", false, Element::Group, vec![]),
    ];
    let books = ResourceSchema {
        name: "Book".into(),
        saved_root: Some(SavedRoot { name: "books".into(), identity_keys: vec![] }),
        indexes: vec![],
        members: vec![0, 1],
        nodes: nodes.clone(),
    };
    let shelves = ResourceSchema {
        name: "Shelf".into(),
        saved_root: None,
        indexes: vec![],
        members: vec![0, 5],
        nodes,
    };
    ProgramSchema {
        modules: vec![
            ModuleSchema { name: "a".into(), enums: vec![enum_schema("Color", &["red"])], resources: vec![books] },
            ModuleSchema { name: "b".into(), enums: vec![enum_schema("Color", &["blue"]), enum_schema("Size", &["s"])], resources: vec![shelves] },
        ],
    }
}

#[test]
fn enums_resolve_by_module_then_project() {
    let p = program();
    assert_eq!(enum_in(&p, "b", "Color").map(|e| e.members[0].as_str()), Some("blue"));
    assert!(enum_in(&p, "a", "Size").is_none());
    assert!(enum_in(&p, "zz", "Color").is_none());
    assert_eq!(resolve_enum(&p, "a", "Size").map(|e| e.members[0].as_str()), Some("s"));
    assert_eq!(resolve_enum(&p, "zz", "Color").map(|e| e.members[0].as_str()), Some("red"));
    assert!(resolve_enum(&p, "a", "Nope").is_none());
}

#[test]
fn resource_types_and_unkeyed_groups() {
    let p = program();
    assert!(is_resource_type(&p, "Shelf"));
    assert!(!is_resource_type(&p, "books"));
    assert!(!declares_unkeyed_group(&p.modules[0].resources[0]));
    assert!(declares_unkeyed_group(&p.modules[1].resources[0]));
}

#[test]
fn group_members_are_the_plain_scalar_fields() {
    let p = program();
    assert_eq!(
        resource_group_members(&p, "books", "versions"),
        Some(vec![("note".to_string(), ScalarType::Str)])
    );
    assert_eq!(resource_group_members(&p, "books", "nope"), None);
    assert_eq!(resource_group_members(&p, "shelves", "versions"), None);
}

#[test]
fn saved_path_shapes() {
    let root = || Box::new(PathExpr::SavedRoot);
    let field = PathExpr::Field { base: Box::new(PathExpr::Call { callee: root() }) };
    assert!(is_saved_path(&field));
    assert!(!is_saved_path(&PathExpr::Field { base: Box::new(PathExpr::Other) }));
    assert!(is_saved_path(&PathExpr::OptionalField { base: root() }));
    let keyed_group = PathExpr::Call { callee: Box::new(PathExpr::Field { base: root() }) };
    assert!(is_group_base(&keyed_group));
    assert!(is_group_base(&PathExpr::Field { base: root() }));
    assert!(!is_group_base(&PathExpr::Call { callee: root() }));
    assert!(!is_group_base(&PathExpr::SavedRoot));
}

#[test]
fn neighbor_seeks_pick_their_column() {
    let params = vec![
        KeyDef { name: "row".into(), scalar: Some(ScalarType::Int) },
        KeyDef { name: "col".into(), scalar: Some(ScalarType::Str) },
    ];
    let one = vec![SavedKey::Int(1)];
    let two = vec![SavedKey::Int(1), SavedKey::Str("c".into())];
    assert_eq!(
        neighbor_seek(&one, &params),
        Some(NeighborSeek { prefix_len: 1, anchored: false, expected_key: Some(ScalarType::Str) })
    );
    assert_eq!(
        neighbor_seek(&two, &params),
        Some(NeighborSeek { prefix_len: 1, anchored: true, expected_key: Some(ScalarType::Str) })
    );
    assert_eq!(neighbor_seek(&[], &[]), None);
    assert_eq!(
        neighbor_seek(&[], &params),
        Some(NeighborSeek { prefix_len: 0, anchored: false, expected_key: Some(ScalarType::Int) })
    );
}

fn names(v: &[&str]) -> Vec<String> {
    v.iter().map(|s| s.to_string()).collect()
}

#[test]
fn enum_ranges_keep_declaration_order_windows() {
    let members = names(&["low", "mid", "high", "max"]);
    assert_eq!(enum_range_members(&members, Some("mid"), Some("max"), false), Ok(names(&["mid", "high"])));
    assert_eq!(enum_range_members(&members, Some("mid"), Some("max"), true), Ok(names(&["mid", "high", "max"])));
    assert_eq!(enum_range_members(&members, None, Some("mid"), false), Ok(names(&["low"])));
    assert_eq!(enum_range_members(&members, Some("high"), None, false), Ok(names(&["high", "max"])));
    assert_eq!(enum_range_members(&members, None, None, false), Ok(members.clone()));
    assert_eq!(enum_range_members(&members, Some("high"), Some("low"), true), Ok(vec![]));
    assert_eq!(enum_range_members(&members, Some("mid"), Some("mid"), false), Ok(vec![]));
    assert_eq!(enum_range_members(&members, Some("red"), None, false), Err(ForeignEnumBound));
    assert_eq!(enum_range_members(&members, None, Some("red"), true), Err(ForeignEnumBound));
    assert_eq!(ForeignEnumBound.message(), "this index range bound takes a different enum");
}

#[test]
fn descending_scans_reverse_members() {
    let keys = vec![SavedKey::Str("a".into()), SavedKey::Str("b".into()), SavedKey::Int(3)];
    assert_eq!(members_in_dir(keys.clone(), Direction::Ascending), keys);
    assert_eq!(
        members_in_dir(keys, Direction::Descending),
        vec![SavedKey::Int(3), SavedKey::Str("b".into()), SavedKey::Str("a".into())]
    );
    assert_eq!(members_in_dir(vec![], Direction::Descending), vec![]);
}

#[test]
fn key_guards_refuse_wrong_kinds_and_low_positions() {
    let int_key = KeyDef { name: "pos".into(), scalar: Some(ScalarType::Int) };
    let deferred = KeyDef { name: "any".into(), scalar: None };
    assert_eq!(guard_key_type(&int_key, &SavedKey::Int(4)), Ok(()));
    assert_eq!(
        guard_key_type(&int_key, &SavedKey::Str("x".into())),
        Err(KeyTypeFault { expected: ScalarType::Int, found: ScalarType::Str })
    );
    assert_eq!(guard_key_type(&deferred, &SavedKey::Bool(true)), Ok(()));

    let seq = vec![int_key.clone()];
    assert_eq!(guard_sequence_position(&seq, &SavedKey::Int(1)), Ok(()));
    assert_eq!(guard_sequence_position(&seq, &SavedKey::Int(0)), Err(AbsentPosition));
    assert_eq!(guard_sequence_position(&seq, &SavedKey::Int(-3)), Err(AbsentPosition));
    assert_eq!(guard_sequence_position(&[int_key.clone(), int_key.clone()], &SavedKey::Int(0)), Ok(()));
    assert_eq!(guard_sequence_position(&[deferred], &SavedKey::Int(0)), Ok(()));

    assert_eq!(reject_non_positive_sequence_key(&[SavedKey::Int(0)]), Err(AbsentPosition));
    assert_eq!(reject_non_positive_sequence_key(&[SavedKey::Int(1)]), Ok(()));
    assert_eq!(reject_non_positive_sequence_key(&[SavedKey::Int(0), SavedKey::Int(0)]), Ok(()));
    assert_eq!(reject_non_positive_sequence_key(&[SavedKey::Str("0".into())]), Ok(()));
    assert_eq!(AbsentPosition.message(), "a sequence position below 1 is absent");
}
