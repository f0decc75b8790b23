use marrow_run::schema::{
    classify_saved_path, Element, KeyDef, MemberNode, ModuleSchema, PathSegment, ProgramSchema,
    ResourceSchema, SavedKey, SavedPathClass, SavedRoot, ScalarType,
};

fn key(name: &str, scalar: ScalarType) -> KeyDef {
    KeyDef { name: name.into(), scalar: Some(scalar) }
}

fn program() -> ProgramSchema {
    let nodes = vec![
        MemberNode { name: "name".into(), key_params: vec![], element: Element::Slot(Some(ScalarType::Str)), children: vec![] },
        MemberNode { name: "tags".into(), key_params: vec![key("tag", ScalarType::Str)], element: Element::Slot(Some(ScalarType::Bool)), children: vec![] },
        MemberNode { name: "addr".into(), key_params: vec![key("kind", ScalarType::Int)], element: Element::Group, children: vec![3] },
        MemberNode { name: "city".into(), key_params: vec![], element: Element::Slot(Some(ScalarType::Str)), children: vec![] },
    ];
    let users = ResourceSchema {
        name: "User".into(),
        saved_root: Some(SavedRoot { name: "users".into(), identity_keys: vec![key("id", ScalarType::Int)] }),
        indexes: vec!["byName".into()],
        members: vec![0, 1, 2],
        nodes,
    };
    ProgramSchema { modules: vec![ModuleSchema { name: "app".into(), enums: vec![], resources: vec![users] }] }
}

fn root() -> PathSegment {
    PathSegment::Root("users".into())
}

fn id(n: i64) -> PathSegment {
    PathSegment::RecordKey(SavedKey::Int(n))
}

fn field(name: &str) -> PathSegment {
    PathSegment::Field(name.into())
}

#[test]
fn declared_leaves_classify_by_type() {
    let p = program();
    assert_eq!(classify_saved_path(&p, &[root(), id(1), field("name")]), SavedPathClass::Scalar(ScalarType::Str));
    assert_eq!(
        classify_saved_path(&p, &[root(), id(1), field("tags"), PathSegment::IndexKey(SavedKey::Str("x".into()))]),
        SavedPathClass::Scalar(ScalarType::Bool)
    );
    assert_eq!(
        classify_saved_path(&p, &[root(), id(1), field("addr"), PathSegment::IndexKey(SavedKey::Int(2)), field("city")]),
        SavedPathClass::Scalar(ScalarType::Str)
    );
}

#[test]
fn index_entries_and_orphans() {
    let p = program();
    assert_eq!(
        classify_saved_path(&p, &[root(), field("byName"), PathSegment::IndexKey(SavedKey::Str("a".into()))]),
        SavedPathClass::IndexMarker
    );
    assert_eq!(classify_saved_path(&p, &[root(), field("nope"), PathSegment::IndexKey(SavedKey::Int(1))]), SavedPathClass::Orphan);
    assert_eq!(classify_saved_path(&p, &[PathSegment::Root("ghost".into()), id(1), field("name")]), SavedPathClass::Orphan);
    assert_eq!(classify_saved_path(&p, &[root(), id(1), field("unknown")]), SavedPathClass::Orphan);
    assert_eq!(classify_saved_path(&p, &[]), SavedPathClass::Orphan);
    assert_eq!(classify_saved_path(&p, &[root(), id(1), id(2), field("name")]), SavedPathClass::Orphan);
}

#[test]
fn key_kinds_are_checked() {
    let p = program();
    assert_eq!(
        classify_saved_path(&p, &[root(), PathSegment::RecordKey(SavedKey::Str("1".into())), field("name")]),
        SavedPathClass::KeyTypeMismatch { expected: ScalarType::Int, found: ScalarType::Str }
    );
    assert_eq!(
        classify_saved_path(&p, &[root(), id(1), field("tags"), PathSegment::IndexKey(SavedKey::Int(3))]),
        SavedPathClass::KeyTypeMismatch { expected: ScalarType::Str, found: ScalarType::Int }
    );
}
