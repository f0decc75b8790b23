//! Program and schema lookups, and saved-path classification.
//!
//! The checked program's resource schemas are held here as plain values: each
//! resource names its saved root, its identity key types, its generated
//! indexes, and its member tree. The member tree is an arena: every member node
//! sits in the resource's `nodes` list and names its children by index, so a
//! chain of member names descends by looking each name up among the current
//! node's children.

use vstd::prelude::*;

use crate::strbuf::str_eq;

verus! {

/// The scalar kinds a saved value or key can have.
#[derive(Debug, Clone, Copy, PartialEq, Eq, Structural)]
pub enum ScalarType {
    Int,
    Bool,
    Str,
    Decimal,
    Bytes,
    Date,
    Instant,
    Duration,
}

/// A saved key segment as stored: a scalar key of one of the key kinds.
#[derive(Debug, Clone, PartialEq, Eq)]
pub enum SavedKey {
    Int(i64),
    Bool(bool),
    Str(String),
    Bytes(Vec<u8>),
    Date(i32),
    Duration(i128),
    Instant(i128),
}

impl SavedKey {
    pub open spec fn kind(&self) -> ScalarType {
        match self {
            SavedKey::Int(_) => ScalarType::Int,
            SavedKey::Bool(_) => ScalarType::Bool,
            SavedKey::Str(_) => ScalarType::Str,
            SavedKey::Bytes(_) => ScalarType::Bytes,
            SavedKey::Date(_) => ScalarType::Date,
            SavedKey::Duration(_) => ScalarType::Duration,
            SavedKey::Instant(_) => ScalarType::Instant,
        }
    }

    /// The scalar kind of this key.
    pub fn scalar_type(&self) -> (t: ScalarType)
        ensures
            t == self.kind(),
    {
        match self {
            SavedKey::Int(_) => ScalarType::Int,
            SavedKey::Bool(_) => ScalarType::Bool,
            SavedKey::Str(_) => ScalarType::Str,
            SavedKey::Bytes(_) => ScalarType::Bytes,
            SavedKey::Date(_) => ScalarType::Date,
            SavedKey::Duration(_) => ScalarType::Duration,
            SavedKey::Instant(_) => ScalarType::Instant,
        }
    }
}

/// One declared key parameter: its name and, when the key type is a scalar,
/// that scalar kind (`None` for a key whose type check is deferred).
#[derive(Debug, Clone, PartialEq, Eq)]
pub struct KeyDef {
    pub name: String,
    pub scalar: Option<ScalarType>,
}

/// What a member node holds.
#[derive(Debug, Clone, PartialEq, Eq)]
pub enum Element {
    /// A value slot: a plain field when the node has no key parameters, a
    /// keyed leaf otherwise. Carries its stored scalar kind, or `None` when the
    /// stored value is not a scalar.
    Slot(Option<ScalarType>),
    /// A group layer whose children are further members.
    Group,
}

/// One member of a resource: a field, keyed leaf, or group layer.
#[derive(Debug, Clone, PartialEq, Eq)]
pub struct MemberNode {
    pub name: String,
    pub key_params: Vec<KeyDef>,
    pub element: Element,
    /// Indexes into the resource's `nodes` of this member's own members.
    pub children: Vec<usize>,
}

/// The saved root a resource is stored under, with its identity keys.
#[derive(Debug, Clone, PartialEq, Eq)]
pub struct SavedRoot {
    pub name: String,
    pub identity_keys: Vec<KeyDef>,
}

/// A resource schema.
#[derive(Debug, Clone, PartialEq, Eq)]
pub struct ResourceSchema {
    pub name: String,
    pub saved_root: Option<SavedRoot>,
    /// The names of the generated indexes directly under the root.
    pub indexes: Vec<String>,
    /// Indexes into `nodes` of the top-level members, in declaration order.
    pub members: Vec<usize>,
    pub nodes: Vec<MemberNode>,
}

/// An enum of the checked program: its name and its members, in ordinal
/// order.
#[derive(Debug, Clone, PartialEq, Eq)]
pub struct EnumSchema {
    pub name: String,
    pub members: Vec<String>,
}

/// A module of the checked program: its enums and resources.
#[derive(Debug, Clone, PartialEq, Eq)]
pub struct ModuleSchema {
    pub name: String,
    pub enums: Vec<EnumSchema>,
    pub resources: Vec<ResourceSchema>,
}

/// The checked program's schema: its modules in project order.
#[derive(Debug, Clone, PartialEq, Eq)]
pub struct ProgramSchema {
    pub modules: Vec<ModuleSchema>,
}

/// One decoded segment of a stored saved path.
#[derive(Debug, Clone, PartialEq, Eq)]
pub enum PathSegment {
    Root(String),
    RecordKey(SavedKey),
    IndexKey(SavedKey),
    /// A named segment: a field, layer, or index name.
    Field(String),
    ChildLayer(String),
    Index(String),
}

/// How a stored saved path relates to the project schema, for data-integrity
/// inspection.
#[derive(Debug, Clone, Copy, PartialEq, Eq, Structural)]
pub enum SavedPathClass {
    /// The path is a declared scalar leaf of the given type.
    Scalar(ScalarType),
    /// The path is a generated index entry (`^root.index(keys…)`).
    IndexMarker,
    /// A record or index key has a scalar kind the schema does not declare for
    /// that key position.
    KeyTypeMismatch { expected: ScalarType, found: ScalarType },
    /// The path is under no declared root, or names an undeclared member.
    Orphan,
}

impl ResourceSchema {
    /// Every child and top-level index names a node of this resource.
    pub open spec fn wf(&self) -> bool {
        &&& forall|k: int| 0 <= k < self.members@.len() ==> #[trigger] self.members@[k] < self.nodes@.len()
        &&& forall|n: int, k: int|
            0 <= n < self.nodes@.len() && 0 <= k < self.nodes@[n].children@.len()
                ==> #[trigger] self.nodes@[n].children@[k] < self.nodes@.len()
    }
}

impl ProgramSchema {
    pub open spec fn wf(&self) -> bool {
        forall|m: int, r: int|
            0 <= m < self.modules@.len() && 0 <= r < self.modules@[m].resources@.len()
                ==> #[trigger] self.modules@[m].resources@[r].wf()
    }
}

/// The first resource in `resources` stored under the saved root `root`.
pub open spec fn find_root_in(resources: Seq<ResourceSchema>, root: Seq<char>) -> Option<
    ResourceSchema,
>
    decreases resources.len(),
{
    if resources.len() == 0 {
        None
    } else if resources[0].saved_root matches Some(s) && s.name@ == root {
        Some(resources[0])
    } else {
        find_root_in(resources.drop_first(), root)
    }
}

/// The resource stored under the saved root `root`, searching the modules in
/// order. Saved roots are project-wide.
pub open spec fn find_root(modules: Seq<ModuleSchema>, root: Seq<char>) -> Option<ResourceSchema>
    decreases modules.len(),
{
    if modules.len() == 0 {
        None
    } else {
        match find_root_in(modules[0].resources@, root) {
            Some(r) => Some(r),
            None => find_root(modules.drop_first(), root),
        }
    }
}

/// The first node among `list` named `name`.
pub open spec fn find_member(res: ResourceSchema, list: Seq<usize>, name: Seq<char>) -> Option<
    int,
>
    decreases list.len(),
{
    if list.len() == 0 {
        None
    } else if 0 <= list[0] < res.nodes@.len() && res.nodes@[list[0] as int].name@ == name {
        Some(list[0] as int)
    } else {
        find_member(res, list.drop_first(), name)
    }
}

/// Descend a non-empty chain of member names from `list`: the first is looked
/// up in `list`, each later one among the previous node's children.
pub open spec fn descend_from(res: ResourceSchema, list: Seq<usize>, chain: Seq<Seq<char>>) -> Option<
    int,
>
    decreases chain.len(),
{
    if chain.len() == 0 {
        None
    } else {
        match find_member(res, list, chain[0]) {
            None => None,
            Some(n) => if chain.len() == 1 {
                Some(n)
            } else {
                descend_from(res, res.nodes@[n].children@, chain.drop_first())
            },
        }
    }
}

/// The member node a chain of names (outermost first) resolves to.
pub open spec fn descend(res: ResourceSchema, chain: Seq<Seq<char>>) -> Option<int> {
    descend_from(res, res.members@, chain)
}

/// The stored scalar of the slot a chain resolves to.
pub open spec fn field_type(res: ResourceSchema, chain: Seq<Seq<char>>) -> Option<ScalarType> {
    match descend(res, chain) {
        Some(n) => match res.nodes@[n].element {
            Element::Slot(s) => s,
            Element::Group => None,
        },
        None => None,
    }
}

/// The stored scalar of the keyed leaf a chain resolves to.
pub open spec fn leaf_type(res: ResourceSchema, chain: Seq<Seq<char>>) -> Option<ScalarType> {
    match descend(res, chain) {
        Some(n) => if res.nodes@[n].key_params@.len() > 0 {
            match res.nodes@[n].element {
                Element::Slot(s) => s,
                Element::Group => None,
            }
        } else {
            None
        },
        None => None,
    }
}

/// The first key whose declared scalar kind differs from its found kind.
pub open spec fn key_mismatch(declared: Seq<KeyDef>, found: Seq<SavedKey>) -> Option<SavedPathClass>
    decreases declared.len(),
{
    if declared.len() == 0 || found.len() == 0 {
        None
    } else if declared[0].scalar is Some && declared[0].scalar->Some_0 != found[0].kind() {
        Some(
            SavedPathClass::KeyTypeMismatch {
                expected: declared[0].scalar->Some_0,
                found: found[0].kind(),
            },
        )
    } else {
        key_mismatch(declared.drop_first(), found.drop_first())
    }
}

/// Whether the `i`-th found key has the kind the `i`-th declared key
/// parameter declares (a parameter with no scalar kind accepts any key).
pub open spec fn key_fits(declared: Seq<KeyDef>, found: Seq<SavedKey>, i: int) -> bool {
    declared[i].scalar is Some ==> declared[i].scalar->Some_0 == found[i].kind()
}

/// Keys are checked pairwise: the `i`-th declared key parameter is compared
/// with the `i`-th found key and no other. There is no mismatch exactly when
/// every found key that has a declared parameter fits it; a mismatch reports
/// the first position where they differ, with the declared and the found
/// kinds there.
pub proof fn lemma_key_mismatch_pairwise(declared: Seq<KeyDef>, found: Seq<SavedKey>)
    ensures
        key_mismatch(declared, found) is None <==> (forall|i: int|
            0 <= i < declared.len() && i < found.len() ==> #[trigger] key_fits(declared, found, i)),
        key_mismatch(declared, found) is Some ==> exists|i: int|
            0 <= i < declared.len() && i < found.len() && !key_fits(declared, found, i) && (forall|
                j: int,
            | 0 <= j < i ==> #[trigger] key_fits(declared, found, j)) && key_mismatch(declared, found)
                == Some(
                SavedPathClass::KeyTypeMismatch {
                    expected: declared[i].scalar->Some_0,
                    found: found[i].kind(),
                },
            ),
    decreases declared.len(),
{
    if declared.len() == 0 || found.len() == 0 {
    } else if !key_fits(declared, found, 0) {
        assert(forall|j: int| 0 <= j < 0 ==> #[trigger] key_fits(declared, found, j));
    } else {
        let d = declared.drop_first();
        let f = found.drop_first();
        lemma_key_mismatch_pairwise(d, f);
        assert forall|i: int| 1 <= i < declared.len() && i < found.len() implies key_fits(
            declared,
            found,
            i,
        ) == key_fits(d, f, i - 1) by {
            assert(d[i - 1] == declared[i]);
            assert(f[i - 1] == found[i]);
        }
        if key_mismatch(d, f) is None {
            assert forall|i: int| 0 <= i < declared.len() && i < found.len() implies #[trigger] key_fits(
                declared,
                found,
                i,
            ) by {
                if i > 0 {
                    assert(key_fits(d, f, i - 1));
                }
            }
        } else {
            let k = choose|k: int|
                0 <= k < d.len() && k < f.len() && !key_fits(d, f, k) && (forall|j: int|
                    0 <= j < k ==> #[trigger] key_fits(d, f, j)) && key_mismatch(d, f) == Some(
                    SavedPathClass::KeyTypeMismatch {
                        expected: d[k].scalar->Some_0,
                        found: f[k].kind(),
                    },
                );
            assert(d[k] == declared[k + 1]);
            assert(f[k] == found[k + 1]);
            assert(!key_fits(declared, found, k + 1));
            assert forall|j: int| 0 <= j < k + 1 implies #[trigger] key_fits(declared, found, j) by {
                if j > 0 {
                    assert(key_fits(d, f, j - 1));
                }
            }
            assert(!(forall|i: int|
                0 <= i < declared.len() && i < found.len() ==> #[trigger] key_fits(declared, found, i)))
                by {
                assert(!key_fits(declared, found, k + 1));
            }
        }
    }
}

/// The number of leading record-key segments.
pub open spec fn leading_record_keys(segs: Seq<PathSegment>) -> nat
    decreases segs.len(),
{
    if segs.len() > 0 && segs[0] is RecordKey {
        1 + leading_record_keys(segs.drop_first())
    } else {
        0
    }
}

/// The keys of the record-key segments among `segs`, in order.
pub open spec fn record_keys(segs: Seq<PathSegment>) -> Seq<SavedKey>
    decreases segs.len(),
{
    if segs.len() == 0 {
        Seq::empty()
    } else {
        match segs.last() {
            PathSegment::RecordKey(k) => record_keys(segs.drop_last()).push(k),
            _ => record_keys(segs.drop_last()),
        }
    }
}

/// A member chain split into its named segments, each with the index keys that
/// immediately follow it; `None` for stray structure.
pub open spec fn group_members(acc: Seq<(Seq<char>, Seq<SavedKey>)>, segs: Seq<PathSegment>) -> Option<
    Seq<(Seq<char>, Seq<SavedKey>)>,
>
    decreases segs.len(),
{
    if segs.len() == 0 {
        Some(acc)
    } else {
        match segs[0] {
            PathSegment::Field(name) => group_members(
                acc.push((name@, Seq::empty())),
                segs.drop_first(),
            ),
            PathSegment::IndexKey(key) => if acc.len() == 0 {
                None
            } else {
                group_members(
                    acc.update(acc.len() - 1, (acc.last().0, acc.last().1.push(key))),
                    segs.drop_first(),
                )
            },
            _ => None,
        }
    }
}

/// The names of grouped member segments.
pub open spec fn member_names(named: Seq<(Seq<char>, Seq<SavedKey>)>) -> Seq<Seq<char>> {
    named.map_values(|p: (Seq<char>, Seq<SavedKey>)| p.0)
}

/// The first keyed layer, from depth `d` on, whose index keys do not match
/// its declared key kinds.
pub open spec fn layer_key_mismatch(
    res: ResourceSchema,
    named: Seq<(Seq<char>, Seq<SavedKey>)>,
    d: int,
) -> Option<SavedPathClass>
    decreases named.len() - d,
{
    if d < 0 || d >= named.len() {
        None
    } else {
        let here = if named[d].1.len() == 0 {
            None
        } else {
            match descend(res, member_names(named).take(d + 1)) {
                Some(n) => key_mismatch(res.nodes@[n].key_params@, named[d].1),
                None => None,
            }
        };
        match here {
            Some(m) => Some(m),
            None => layer_key_mismatch(res, named, d + 1),
        }
    }
}

/// How the member chain of a record path resolves.
pub open spec fn classify_member_spec(res: ResourceSchema, members: Seq<PathSegment>) -> SavedPathClass {
    match group_members(Seq::empty(), members) {
        None => SavedPathClass::Orphan,
        Some(named) => if named.len() == 0 {
            SavedPathClass::Orphan
        } else {
            match layer_key_mismatch(res, named, 0) {
                Some(m) => m,
                None => {
                    let names = member_names(named);
                    if named.len() == 1 {
                        match field_type(res, names) {
                            Some(t) => SavedPathClass::Scalar(t),
                            None => match leaf_type(res, names) {
                                Some(t) => SavedPathClass::Scalar(t),
                                None => SavedPathClass::Orphan,
                            },
                        }
                    } else {
                        match field_type(res, names) {
                            Some(t) => SavedPathClass::Scalar(t),
                            None => SavedPathClass::Orphan,
                        }
                    }
                },
            }
        },
    }
}

/// Whether every segment is an index key.
pub open spec fn all_index_keys(segs: Seq<PathSegment>) -> bool {
    forall|i: int| 0 <= i < segs.len() ==> #[trigger] segs[i] is IndexKey
}

/// How a decoded saved path relates to the program's schemas.
pub open spec fn classify_spec(schema: ProgramSchema, segs: Seq<PathSegment>) -> SavedPathClass {
    if segs.len() == 0 || !(segs[0] is Root) {
        SavedPathClass::Orphan
    } else {
        let root = segs[0]->Root_0@;
        match find_root(schema.modules@, root) {
            None => SavedPathClass::Orphan,
            Some(res) => {
                let rest = segs.drop_first();
                let n = leading_record_keys(rest) as int;
                let after = rest.skip(n);
                if n == 0 && after.len() > 0 && after[0] is Field && all_index_keys(
                    after.drop_first(),
                ) {
                    if res.indexes@.map_values(|s: String| s@).contains(after[0]->Field_0@) {
                        SavedPathClass::IndexMarker
                    } else {
                        SavedPathClass::Orphan
                    }
                } else if n != res.saved_root.unwrap().identity_keys@.len() {
                    SavedPathClass::Orphan
                } else {
                    match key_mismatch(
                        res.saved_root.unwrap().identity_keys@,
                        record_keys(rest.take(n)),
                    ) {
                        Some(m) => m,
                        None => classify_member_spec(res, after),
                    }
                }
            },
        }
    }
}

/// Views of a slice of names.
pub open spec fn name_views(chain: Seq<&str>) -> Seq<Seq<char>> {
    chain.map_values(|s: &str| s@)
}

/// The keys behind a sequence of key references.
pub open spec fn deref_keys(keys: Seq<&SavedKey>) -> Seq<SavedKey> {
    keys.map_values(|k: &SavedKey| *k)
}

/// The resource schema attached to a saved root, by root name. Saved roots are
/// project-wide, so every module is searched in order.
pub fn find_resource<'p>(program: &'p ProgramSchema, root: &str) -> (r: Option<&'p ResourceSchema>)
    ensures
        r matches Some(x) ==> find_root(program.modules@, root@) == Some(*x),
        r is None ==> find_root(program.modules@, root@) is None,
{
    let mut m: usize = 0;
    assert(program.modules@.skip(0) =~= program.modules@);
    while m < program.modules.len()
        invariant
            m <= program.modules@.len(),
            find_root(program.modules@, root@) == find_root(program.modules@.skip(m as int), root@),
        decreases program.modules@.len() - m,
    {
        let resources = &program.modules[m].resources;
        let ghost tail = program.modules@.skip(m as int);
        assert(tail[0] == program.modules@[m as int]);
        assert(tail.drop_first() =~= program.modules@.skip(m as int + 1));
        let mut k: usize = 0;
        assert(resources@.skip(0) =~= resources@);
        while k < resources.len()
            invariant
                k <= resources@.len(),
                m < program.modules@.len(),
                resources@ == program.modules@[m as int].resources@,
                tail == program.modules@.skip(m as int),
                tail[0] == program.modules@[m as int],
                find_root(program.modules@, root@) == find_root(tail, root@),
                find_root_in(resources@, root@) == find_root_in(resources@.skip(k as int), root@),
            decreases resources@.len() - k,
        {
            let ghost rt = resources@.skip(k as int);
            assert(rt[0] == resources@[k as int]);
            assert(rt.drop_first() =~= resources@.skip(k as int + 1));
            if let Some(saved) = &resources[k].saved_root {
                if str_eq(saved.name.as_str(), root) {
                    return Some(&resources[k]);
                }
            }
            k = k + 1;
        }
        assert(resources@.skip(k as int) =~= Seq::<ResourceSchema>::empty());
        m = m + 1;
    }
    assert(program.modules@.skip(m as int) =~= Seq::<ModuleSchema>::empty());
    None
}

/// The first node among `list` named `name`.
fn find_member_in(res: &ResourceSchema, list: &Vec<usize>, name: &str) -> (r: Option<usize>)
    ensures
        r matches Some(n) ==> find_member(*res, list@, name@) == Some(n as int) && n
            < res.nodes@.len(),
        r is None ==> find_member(*res, list@, name@) is None,
{
    let mut k: usize = 0;
    assert(list@.skip(0) =~= list@);
    while k < list.len()
        invariant
            k <= list@.len(),
            find_member(*res, list@, name@) == find_member(*res, list@.skip(k as int), name@),
        decreases list@.len() - k,
    {
        let ghost lt = list@.skip(k as int);
        assert(lt[0] == list@[k as int]);
        assert(lt.drop_first() =~= list@.skip(k as int + 1));
        let n = list[k];
        if n < res.nodes.len() && str_eq(res.nodes[n].name.as_str(), name) {
            return Some(n);
        }
        k = k + 1;
    }
    assert(list@.skip(k as int) =~= Seq::<usize>::empty());
    None
}

impl ResourceSchema {
    /// The member node a chain of names (outermost first) resolves to: the
    /// first a direct member of the resource, each deeper one a member of the
    /// one before it.
    pub fn descend_layers(&self, chain: &[&str]) -> (r: Option<usize>)
        ensures
            r matches Some(n) ==> descend(*self, name_views(chain@)) == Some(n as int) && n
                < self.nodes@.len(),
            r is None ==> descend(*self, name_views(chain@)) is None,
    {
        if chain.len() == 0 {
            return None;
        }
        let mut list: &Vec<usize> = &self.members;
        let mut i: usize = 0;
        let ghost names = name_views(chain@);
        assert(names.skip(0) =~= names);
        loop
            invariant
                names == name_views(chain@),
                0 <= i < chain@.len(),
                descend(*self, names) == descend_from(*self, list@, names.skip(i as int)),
            decreases chain@.len() - i,
        {
            let ghost rest = names.skip(i as int);
            assert(rest[0] == chain@[i as int]@);
            match find_member_in(self, list, chain[i]) {
                None => {
                    return None;
                },
                Some(n) => {
                    if i + 1 == chain.len() {
                        return Some(n);
                    }
                    assert(rest.drop_first() =~= names.skip(i as int + 1));
                    list = &self.nodes[n].children;
                    i = i + 1;
                },
            }
        }
    }

    /// The stored scalar of the value slot a chain resolves to.
    pub fn field_type(&self, chain: &[&str]) -> (r: Option<ScalarType>)
        ensures
            r == field_type(*self, name_views(chain@)),
    {
        match self.descend_layers(chain) {
            Some(n) => match &self.nodes[n].element {
                Element::Slot(s) => *s,
                Element::Group => None,
            },
            None => None,
        }
    }

    /// The stored scalar of the keyed leaf a chain resolves to.
    pub fn leaf_type(&self, chain: &[&str]) -> (r: Option<ScalarType>)
        ensures
            r == leaf_type(*self, name_views(chain@)),
    {
        match self.descend_layers(chain) {
            Some(n) => if self.nodes[n].key_params.len() > 0 {
                match &self.nodes[n].element {
                    Element::Slot(s) => *s,
                    Element::Group => None,
                }
            } else {
                None
            },
            None => None,
        }
    }
}

/// Whether the chain of layer names (outermost to innermost) is fully declared
/// on the resource at `root`.
pub fn resource_layer_chain_exists(program: &ProgramSchema, root: &str, layers: &[&str]) -> (r:
    bool)
    ensures
        r == (find_root(program.modules@, root@) matches Some(res) && descend(
            res,
            name_views(layers@),
        ) is Some),
{
    match find_resource(program, root) {
        Some(resource) => resource.descend_layers(layers).is_some(),
        None => false,
    }
}

/// The number of declared identity keys for the resource at saved root `name`,
/// or `None` when `name` is not a managed saved root.
pub fn root_identity_arity(program: &ProgramSchema, name: &str) -> (r: Option<usize>)
    ensures
        r == (match find_root(program.modules@, name@) {
            Some(res) => match res.saved_root {
                Some(saved) => Some(saved.identity_keys@.len() as usize),
                None => None,
            },
            None => None,
        }),
{
    match find_resource(program, name) {
        Some(resource) => match &resource.saved_root {
            Some(saved) => Some(saved.identity_keys.len()),
            None => None,
        },
        None => None,
    }
}

/// The declared identity key parameters of the resource at saved root `name`,
/// or an empty slice when the root is unresolved or keyless.
pub fn root_identity_keys<'p>(program: &'p ProgramSchema, name: &str) -> (r: &'p [KeyDef])
    ensures
        r@ == (match find_root(program.modules@, name@) {
            Some(res) => match res.saved_root {
                Some(saved) => saved.identity_keys@,
                None => Seq::empty(),
            },
            None => Seq::empty(),
        }),
{
    match find_resource(program, name) {
        Some(resource) => match &resource.saved_root {
            Some(saved) => saved.identity_keys.as_slice(),
            None => &[],
        },
        None => &[],
    }
}

/// The declared key parameters of a keyed layer named by its chain (outermost
/// first), or an empty slice when the chain does not resolve.
pub fn layer_key_params<'p>(program: &'p ProgramSchema, root: &str, chain: &[&str]) -> (r:
    &'p [KeyDef])
    ensures
        r@ == (match find_root(program.modules@, root@) {
            Some(res) => match descend(res, name_views(chain@)) {
                Some(n) => res.nodes@[n].key_params@,
                None => Seq::empty(),
            },
            None => Seq::empty(),
        }),
{
    match find_resource(program, root) {
        Some(resource) => match resource.descend_layers(chain) {
            Some(n) => resource.nodes[n].key_params.as_slice(),
            None => &[],
        },
        None => &[],
    }
}

/// The declared scalar type of a saved root's top-level field.
pub fn resource_field_type(program: &ProgramSchema, root: &str, field: &str) -> (r: Option<
    ScalarType,
>)
    ensures
        r == (match find_root(program.modules@, root@) {
            Some(res) => field_type(res, seq![field@]),
            None => None,
        }),
{
    match find_resource(program, root) {
        Some(resource) => {
            let chain = [field];
            assert(name_views(chain@) =~= seq![field@]);
            resource.field_type(&chain)
        },
        None => None,
    }
}

/// The declared leaf type of a keyed-leaf layer on a saved root.
pub fn resource_layer_leaf_type(program: &ProgramSchema, root: &str, layer: &str) -> (r: Option<
    ScalarType,
>)
    ensures
        r == (match find_root(program.modules@, root@) {
            Some(res) => leaf_type(res, seq![layer@]),
            None => None,
        }),
{
    match find_resource(program, root) {
        Some(resource) => {
            let chain = [layer];
            assert(name_views(chain@) =~= seq![layer@]);
            resource.leaf_type(&chain)
        },
        None => None,
    }
}

/// The declared type of a scalar member field inside a saved root's group
/// layers, at any nesting depth; `layers` names the group layers from
/// outermost to innermost.
pub fn resource_nested_member_type(
    program: &ProgramSchema,
    root: &str,
    layers: &[&str],
    field: &str,
) -> (r: Option<ScalarType>)
    ensures
        r == (match find_root(program.modules@, root@) {
            Some(res) => field_type(res, name_views(layers@).push(field@)),
            None => None,
        }),
{
    match find_resource(program, root) {
        Some(resource) => {
            let mut chain: Vec<&str> = Vec::new();
            let mut i: usize = 0;
            while i < layers.len()
                invariant
                    i <= layers@.len(),
                    chain@ == layers@.take(i as int),
                decreases layers@.len() - i,
            {
                chain.push(layers[i]);
                assert(layers@.take(i as int + 1) =~= layers@.take(i as int).push(layers@[i as int]));
                i = i + 1;
            }
            assert(layers@.take(i as int) =~= layers@);
            chain.push(field);
            assert(name_views(chain@) =~= name_views(layers@).push(field@));
            resource.field_type(chain.as_slice())
        },
        None => None,
    }
}

/// The record key carried by a segment, or `None` for any other segment kind.
pub fn record_key(segment: &PathSegment) -> (r: Option<&SavedKey>)
    ensures
        r == (match segment {
            PathSegment::RecordKey(k) => Some(k),
            _ => None,
        }),
{
    match segment {
        PathSegment::RecordKey(key) => Some(key),
        _ => None,
    }
}

/// The first key-type mismatch between a layer's declared key parameters and
/// the keys addressing it, or `None` when every key matches its declared scalar
/// kind. A shorter key run simply ends the comparison; a key under a
/// non-scalar declaration is left alone.
pub fn key_type_mismatch(declared: &[KeyDef], found: &[&SavedKey]) -> (r: Option<SavedPathClass>)
    ensures
        r == key_mismatch(declared@, deref_keys(found@)),
{
    let mut i: usize = 0;
    assert(declared@.skip(0) =~= declared@);
    assert(deref_keys(found@).skip(0) =~= deref_keys(found@));
    while i < declared.len() && i < found.len()
        invariant
            i <= declared@.len(),
            i <= found@.len(),
            key_mismatch(declared@, deref_keys(found@)) == key_mismatch(
                declared@.skip(i as int),
                deref_keys(found@).skip(i as int),
            ),
        decreases declared@.len() - i,
    {
        let ghost d = declared@.skip(i as int);
        let ghost f = deref_keys(found@).skip(i as int);
        assert(d[0] == declared@[i as int]);
        assert(f[0] == *found@[i as int]);
        assert(d.drop_first() =~= declared@.skip(i as int + 1));
        assert(f.drop_first() =~= deref_keys(found@).skip(i as int + 1));
        let kind = found[i].scalar_type();
        match declared[i].scalar {
            Some(expected) => {
                if expected != kind {
                    return Some(SavedPathClass::KeyTypeMismatch { expected, found: kind });
                }
            },
            None => {},
        }
        i = i + 1;
    }
    let ghost d = declared@.skip(i as int);
    let ghost f = deref_keys(found@).skip(i as int);
    assert(d.len() == 0 || f.len() == 0);
    None
}

/// The resource the path is classified against, when its member chain is
/// classified on its own.
pub open spec fn classify_member_at(
    program: ProgramSchema,
    root: Seq<char>,
    members: Seq<PathSegment>,
) -> SavedPathClass {
    match find_root(program.modules@, root) {
        Some(res) => classify_member_spec(res, members),
        None => SavedPathClass::Orphan,
    }
}

/// The grouped members accumulated so far, as the spec sees them.
pub open spec fn grouped_view(names: Seq<&str>, keys: Seq<Vec<&SavedKey>>) -> Seq<
    (Seq<char>, Seq<SavedKey>),
> {
    Seq::new(names.len(), |i: int| (names[i]@, deref_keys(keys[i]@)))
}

proof fn lemma_find_root_in_saved(resources: Seq<ResourceSchema>, root: Seq<char>)
    ensures
        find_root_in(resources, root) matches Some(r) ==> (r.saved_root is Some && resources.contains(
            r,
        )),
    decreases resources.len(),
{
    if resources.len() > 0 {
        lemma_find_root_in_saved(resources.drop_first(), root);
        if let Some(r) = find_root_in(resources.drop_first(), root) {
            assert(resources.drop_first().contains(r));
            let k = choose|k: int| 0 <= k < resources.drop_first().len() && resources.drop_first()[k] == r;
            assert(resources[k + 1] == r);
        }
        assert(resources[0] == resources[0]);
    }
}

/// A resource found by saved root has that saved root and belongs to the
/// program, so it is well formed when the program is.
pub proof fn lemma_find_root_props(modules: Seq<ModuleSchema>, root: Seq<char>)
    ensures
        find_root(modules, root) matches Some(r) ==> r.saved_root is Some && exists|m: int, k: int|
            0 <= m < modules.len() && 0 <= k < modules[m].resources@.len()
                && #[trigger] modules[m].resources@[k] == r,
    decreases modules.len(),
{
    if modules.len() > 0 {
        lemma_find_root_in_saved(modules[0].resources@, root);
        lemma_find_root_props(modules.drop_first(), root);
        match find_root_in(modules[0].resources@, root) {
            Some(r) => {
                let k = choose|k: int| 0 <= k < modules[0].resources@.len() && modules[0].resources@[k] == r;
                assert(modules[0].resources@[k] == r);
            },
            None => {
                if let Some(r) = find_root(modules.drop_first(), root) {
                    let (m, k) = choose|m: int, k: int|
                        0 <= m < modules.drop_first().len() && 0 <= k < modules.drop_first()[m].resources@.len()
                            && #[trigger] modules.drop_first()[m].resources@[k] == r;
                    assert(modules[m + 1].resources@[k] == r);
                }
            },
        }
    }
}

proof fn lemma_take_names(names: Seq<&str>, keys: Seq<Vec<&SavedKey>>, d: int)
    requires
        names.len() == keys.len(),
        0 <= d < names.len(),
    ensures
        member_names(grouped_view(names, keys)).take(d + 1) == name_views(names.subrange(0, d + 1)),
{
    assert(member_names(grouped_view(names, keys)).take(d + 1) =~= name_views(
        names.subrange(0, d + 1),
    ));
}

/// Classify the member chain of a record path (everything after the identity
/// keys): a sequence of named segments, each optionally followed by its index
/// keys. The chain resolves to a scalar leaf — a top-level field, a keyed-leaf
/// layer entry, or a nested group field — or an orphan when the schema does not
/// declare it.
pub fn classify_member(program: &ProgramSchema, root: &str, members: &[PathSegment]) -> (r:
    SavedPathClass)
    ensures
        r == classify_member_at(*program, root@, members@),
{
    let mut names: Vec<&str> = Vec::new();
    let mut keys: Vec<Vec<&SavedKey>> = Vec::new();
    let mut i: usize = 0;
    assert(members@.skip(0) =~= members@);
    assert(grouped_view(names@, keys@) =~= Seq::<(Seq<char>, Seq<SavedKey>)>::empty());
    while i < members.len()
        invariant
            i <= members@.len(),
            names@.len() == keys@.len(),
            group_members(Seq::empty(), members@) == group_members(
                grouped_view(names@, keys@),
                members@.skip(i as int),
            ),
        decreases members@.len() - i,
    {
        let ghost acc = grouped_view(names@, keys@);
        let ghost rest = members@.skip(i as int);
        assert(rest[0] == members@[i as int]);
        assert(rest.drop_first() =~= members@.skip(i as int + 1));
        match &members[i] {
            PathSegment::Field(name) => {
                names.push(name.as_str());
                keys.push(Vec::new());
                assert(deref_keys(keys@[keys@.len() - 1]@) =~= Seq::<SavedKey>::empty());
                assert(grouped_view(names@, keys@) =~= acc.push((name@, Seq::empty())));
            },
            PathSegment::IndexKey(key) => {
                if names.len() == 0 {
                    return SavedPathClass::Orphan;
                }
                let mut last = keys.pop().unwrap();
                let ghost old_last = last@;
                last.push(key);
                keys.push(last);
                assert(deref_keys(keys@[keys@.len() - 1]@) =~= deref_keys(old_last).push(*key));
                assert(grouped_view(names@, keys@) =~= acc.update(
                    acc.len() - 1,
                    (acc.last().0, acc.last().1.push(*key)),
                ));
            },
            _ => {
                return SavedPathClass::Orphan;
            },
        }
        i = i + 1;
    }
    assert(members@.skip(i as int) =~= Seq::<PathSegment>::empty());
    let ghost named = grouped_view(names@, keys@);
    assert(group_members(Seq::empty(), members@) == Some(named));
    if names.len() == 0 {
        return SavedPathClass::Orphan;
    }
    let resource = match find_resource(program, root) {
        Some(resource) => resource,
        None => {
            return SavedPathClass::Orphan;
        },
    };
    let mut d: usize = 0;
    while d < names.len()
        invariant
            names@.len() == keys@.len(),
            named == grouped_view(names@, keys@),
            names@.len() > 0,
            group_members(Seq::empty(), members@) == Some(named),
            find_root(program.modules@, root@) == Some(*resource),
            d <= names@.len(),
            layer_key_mismatch(*resource, named, 0) == layer_key_mismatch(*resource, named, d as int),
        decreases names@.len() - d,
    {
        proof {
            lemma_take_names(names@, keys@, d as int);
        }
        if keys[d].len() > 0 {
            match resource.descend_layers(&names.as_slice()[0..d + 1]) {
                Some(n) => {
                    match key_type_mismatch(resource.nodes[n].key_params.as_slice(), keys[d].as_slice()) {
                        Some(m) => {
                            return m;
                        },
                        None => {},
                    }
                },
                None => {},
            }
        }
        d = d + 1;
    }
    assert(member_names(named) =~= name_views(names@));
    if names.len() == 1 {
        match resource.field_type(names.as_slice()) {
            Some(t) => SavedPathClass::Scalar(t),
            None => match resource.leaf_type(names.as_slice()) {
                Some(t) => SavedPathClass::Scalar(t),
                None => SavedPathClass::Orphan,
            },
        }
    } else {
        match resource.field_type(names.as_slice()) {
            Some(t) => SavedPathClass::Scalar(t),
            None => SavedPathClass::Orphan,
        }
    }
}

proof fn lemma_leading_record_keys(segs: Seq<PathSegment>, i: int)
    requires
        0 <= i <= segs.len(),
        forall|j: int| 0 <= j < i ==> #[trigger] segs[j] is RecordKey,
        i == segs.len() || !(segs[i] is RecordKey),
    ensures
        leading_record_keys(segs) == i,
    decreases i,
{
    if i > 0 {
        assert forall|j: int| 0 <= j < i - 1 implies #[trigger] segs.drop_first()[j] is RecordKey by {
            assert(segs.drop_first()[j] == segs[j + 1]);
        }
        if i < segs.len() {
            assert(segs.drop_first()[i - 1] == segs[i]);
        }
        lemma_leading_record_keys(segs.drop_first(), i - 1);
    }
}

/// Whether the resource's generated indexes include one named `name`.
fn has_index(resource: &ResourceSchema, name: &str) -> (r: bool)
    ensures
        r == resource.indexes@.map_values(|s: String| s@).contains(name@),
{
    let ghost names = resource.indexes@.map_values(|s: String| s@);
    let mut k: usize = 0;
    while k < resource.indexes.len()
        invariant
            names == resource.indexes@.map_values(|s: String| s@),
            k <= resource.indexes@.len(),
            forall|j: int| 0 <= j < k ==> names[j] != name@,
        decreases resource.indexes@.len() - k,
    {
        if str_eq(resource.indexes[k].as_str(), name) {
            assert(names[k as int] == name@);
            return true;
        }
        k = k + 1;
    }
    false
}

/// Classify a decoded saved path against the program's schemas.
/// Named segments arrive uniformly as [`PathSegment::Field`] because the store
/// cannot tell a field, layer, or index name apart from bytes — this resolves
/// the ambiguity with the schema:
///
/// - `^root(identity…).field` is a top-level field;
/// - `^root(identity…).layer(keys…)` is a keyed-leaf layer entry;
/// - `^root(identity…).layer(keys…).field` (any depth) is a nested group field;
/// - `^root.index(keys…)` is a generated index entry;
/// - anything under an unknown root or naming an undeclared member is an orphan.
pub fn classify_saved_path(program: &ProgramSchema, segments: &[PathSegment]) -> (r: SavedPathClass)
    ensures
        r == classify_spec(*program, segments@),
{
    if segments.len() == 0 {
        return SavedPathClass::Orphan;
    }
    let root: &str = match &segments[0] {
        PathSegment::Root(root) => root.as_str(),
        _ => {
            return SavedPathClass::Orphan;
        },
    };
    let resource = match find_resource(program, root) {
        Some(resource) => resource,
        None => {
            return SavedPathClass::Orphan;
        },
    };
    proof {
        lemma_find_root_props(program.modules@, root@);
    }
    let saved = match &resource.saved_root {
        Some(saved) => saved,
        None => {
            return SavedPathClass::Orphan;
        },
    };
    let arity = saved.identity_keys.len();
    let rest = &segments[1..segments.len()];
    assert(rest@ =~= segments@.drop_first());
    let mut identity_keys: usize = 0;
    while identity_keys < rest.len() && matches!(rest[identity_keys], PathSegment::RecordKey(_))
        invariant
            identity_keys <= rest@.len(),
            forall|j: int| 0 <= j < identity_keys ==> #[trigger] rest@[j] is RecordKey,
        decreases rest@.len() - identity_keys,
    {
        identity_keys = identity_keys + 1;
    }
    proof {
        lemma_leading_record_keys(rest@, identity_keys as int);
    }
    let after_identity = &rest[identity_keys..rest.len()];
    assert(after_identity@ =~= rest@.skip(identity_keys as int));
    if identity_keys == 0 && after_identity.len() > 0 {
        if let PathSegment::Field(name) = &after_identity[0] {
            let mut all_keys = true;
            let mut j: usize = 1;
            while j < after_identity.len()
                invariant
                    1 <= j <= after_identity@.len(),
                    all_keys == (forall|t: int| 1 <= t < j ==> #[trigger] after_identity@[t] is IndexKey),
                decreases after_identity@.len() - j,
            {
                if !matches!(after_identity[j], PathSegment::IndexKey(_)) {
                    all_keys = false;
                }
                j = j + 1;
            }
            proof {
                let tail = after_identity@.drop_first();
                if all_keys {
                    assert forall|t: int| 0 <= t < tail.len() implies #[trigger] tail[t] is IndexKey by {
                        assert(tail[t] == after_identity@[t + 1]);
                    }
                } else {
                    let t = choose|t: int| 1 <= t < after_identity@.len() && !(#[trigger] after_identity@[t] is IndexKey);
                    assert(tail[t - 1] == after_identity@[t]);
                }
            }
            if all_keys {
                if has_index(resource, name.as_str()) {
                    return SavedPathClass::IndexMarker;
                }
                return SavedPathClass::Orphan;
            }
        }
    }
    if identity_keys != arity {
        return SavedPathClass::Orphan;
    }
    let mut keys: Vec<&SavedKey> = Vec::new();
    let mut k: usize = 0;
    while k < identity_keys
        invariant
            identity_keys <= rest@.len(),
            k <= identity_keys,
            forall|j: int| 0 <= j < identity_keys ==> #[trigger] rest@[j] is RecordKey,
            deref_keys(keys@) == record_keys(rest@.take(k as int)),
        decreases identity_keys - k,
    {
        let ghost before = keys@;
        assert(rest@.take(k as int + 1).drop_last() =~= rest@.take(k as int));
        assert(rest@.take(k as int + 1).last() == rest@[k as int]);
        match record_key(&rest[k]) {
            Some(key) => {
                keys.push(key);
                assert(deref_keys(keys@) =~= deref_keys(before).push(*key));
            },
            None => {
                assert(false);
            },
        }
        k = k + 1;
    }
    match key_type_mismatch(saved.identity_keys.as_slice(), keys.as_slice()) {
        Some(mismatch) => {
            return mismatch;
        },
        None => {},
    }
    classify_member(program, root, after_identity)
}


// ---------------------------------------------------------------------------
// Enums, resource types and groups.
/// The first module named `module`.
pub open spec fn module_named(modules: Seq<ModuleSchema>, module: Seq<char>) -> Option<ModuleSchema>
    decreases modules.len(),
{
    if modules.len() == 0 {
        None
    } else if modules[0].name@ == module {
        Some(modules[0])
    } else {
        module_named(modules.drop_first(), module)
    }
}

/// The first enum among `enums` named `name`.
pub open spec fn enum_named(enums: Seq<EnumSchema>, name: Seq<char>) -> Option<EnumSchema>
    decreases enums.len(),
{
    if enums.len() == 0 {
        None
    } else if enums[0].name@ == name {
        Some(enums[0])
    } else {
        enum_named(enums.drop_first(), name)
    }
}

/// The enum named `name` owned by the first module named `module`.
pub open spec fn enum_in_spec(modules: Seq<ModuleSchema>, module: Seq<char>, name: Seq<char>) -> Option<EnumSchema> {
    match module_named(modules, module) {
        Some(m) => enum_named(m.enums@, name),
        None => None,
    }
}

/// The first enum named `name` in any module, in project order.
pub open spec fn any_enum_named(modules: Seq<ModuleSchema>, name: Seq<char>) -> Option<EnumSchema>
    decreases modules.len(),
{
    if modules.len() == 0 {
        None
    } else {
        match enum_named(modules[0].enums@, name) {
            Some(e) => Some(e),
            None => any_enum_named(modules.drop_first(), name),
        }
    }
}

fn find_enum_named<'p>(enums: &'p Vec<EnumSchema>, name: &str) -> (r: Option<&'p EnumSchema>)
    ensures
        match enum_named(enums@, name@) {
            Some(e) => r == Some(&e),
            None => r is None,
        },
{
    let mut i: usize = 0;
    assert(enums@.skip(0) =~= enums@);
    while i < enums.len()
        invariant
            i <= enums@.len(),
            enum_named(enums@, name@) == enum_named(enums@.skip(i as int), name@),
        decreases enums@.len() - i,
    {
        let ghost rest = enums@.skip(i as int);
        assert(rest[0] == enums@[i as int]);
        assert(rest.drop_first() =~= enums@.skip(i + 1));
        if str_eq(enums[i].name.as_str(), name) {
            return Some(&enums[i]);
        }
        i = i + 1;
    }
    assert(enums@.skip(i as int) =~= Seq::<EnumSchema>::empty());
    None
}

/// The enum named `name` owned by exactly `module`, if any: the first module
/// of that name is searched, and no other.
pub fn enum_in<'p>(program: &'p ProgramSchema, module: &str, name: &str) -> (r: Option<&'p EnumSchema>)
    ensures
        match enum_in_spec(program.modules@, module@, name@) {
            Some(e) => r == Some(&e),
            None => r is None,
        },
{
    let mut m: usize = 0;
    assert(program.modules@.skip(0) =~= program.modules@);
    while m < program.modules.len()
        invariant
            m <= program.modules@.len(),
            module_named(program.modules@, module@) == module_named(program.modules@.skip(m as int), module@),
        decreases program.modules@.len() - m,
    {
        let ghost rest = program.modules@.skip(m as int);
        assert(rest[0] == program.modules@[m as int]);
        assert(rest.drop_first() =~= program.modules@.skip(m + 1));
        if str_eq(program.modules[m].name.as_str(), module) {
            return find_enum_named(&program.modules[m].enums, name);
        }
        m = m + 1;
    }
    assert(program.modules@.skip(m as int) =~= Seq::<ModuleSchema>::empty());
    None
}

/// The enum a bare `name` referenced from `referencing_module` resolves to:
/// that module's own enum first, then the first of that name in any module.
pub fn resolve_enum<'p>(program: &'p ProgramSchema, referencing_module: &str, name: &str) -> (r: Option<&'p EnumSchema>)
    ensures
        match enum_in_spec(program.modules@, referencing_module@, name@) {
            Some(e) => r == Some(&e),
            None => match any_enum_named(program.modules@, name@) {
                Some(e) => r == Some(&e),
                None => r is None,
            },
        },
{
    if let Some(e) = enum_in(program, referencing_module, name) {
        return Some(e);
    }
    let mut m: usize = 0;
    assert(program.modules@.skip(0) =~= program.modules@);
    while m < program.modules.len()
        invariant
            m <= program.modules@.len(),
            enum_in_spec(program.modules@, referencing_module@, name@) is None,
            any_enum_named(program.modules@, name@) == any_enum_named(program.modules@.skip(m as int), name@),
        decreases program.modules@.len() - m,
    {
        let ghost rest = program.modules@.skip(m as int);
        assert(rest[0] == program.modules@[m as int]);
        assert(rest.drop_first() =~= program.modules@.skip(m + 1));
        if let Some(e) = find_enum_named(&program.modules[m].enums, name) {
            return Some(e);
        }
        m = m + 1;
    }
    assert(program.modules@.skip(m as int) =~= Seq::<ModuleSchema>::empty());
    None
}

/// Whether some top-level member of the resource is a group without key
/// parameters, which a whole-resource value owns but the runtime does not
/// materialize.
pub open spec fn has_unkeyed_group(res: ResourceSchema) -> bool {
    exists|k: int|
        0 <= k < res.members@.len() && #[trigger] res.members@[k] < res.nodes@.len()
            && res.nodes@[res.members@[k] as int].key_params@.len() == 0
            && res.nodes@[res.members@[k] as int].element is Group
}

/// Whether the resource declares an unkeyed group among its top-level
/// members (a plain field, which also has no key parameters, is no group).
pub fn declares_unkeyed_group(resource: &ResourceSchema) -> (r: bool)
    ensures
        r == has_unkeyed_group(*resource),
{
    let mut k: usize = 0;
    while k < resource.members.len()
        invariant
            k <= resource.members@.len(),
            forall|j: int|
                0 <= j < k ==> !(#[trigger] resource.members@[j] < resource.nodes@.len()
                    && resource.nodes@[resource.members@[j] as int].key_params@.len() == 0
                    && resource.nodes@[resource.members@[j] as int].element is Group),
        decreases resource.members@.len() - k,
    {
        let n = resource.members[k];
        if n < resource.nodes.len() && resource.nodes[n].key_params.len() == 0 && matches!(
            resource.nodes[n].element,
            Element::Group
        ) {
            return true;
        }
        k = k + 1;
    }
    false
}

/// Whether a resource type named `name` is declared in some module.
pub open spec fn declares_resource_type(modules: Seq<ModuleSchema>, name: Seq<char>) -> bool {
    exists|m: int, r: int|
        0 <= m < modules.len() && 0 <= r < modules[m].resources@.len() && (#[trigger] modules[m].resources@[r]).name@
            == name
}

/// Whether `name` is a resource type declared in the program.
pub fn is_resource_type(program: &ProgramSchema, name: &str) -> (r: bool)
    ensures
        r == declares_resource_type(program.modules@, name@),
{
    let mut m: usize = 0;
    while m < program.modules.len()
        invariant
            m <= program.modules@.len(),
            forall|a: int, b: int|
                0 <= a < m && 0 <= b < program.modules@[a].resources@.len() ==> (
                #[trigger] program.modules@[a].resources@[b]).name@ != name@,
        decreases program.modules@.len() - m,
    {
        let resources = &program.modules[m].resources;
        let mut k: usize = 0;
        while k < resources.len()
            invariant
                m < program.modules@.len(),
                resources@ == program.modules@[m as int].resources@,
                k <= resources@.len(),
                forall|a: int, b: int|
                    0 <= a < m && 0 <= b < program.modules@[a].resources@.len() ==> (
                    #[trigger] program.modules@[a].resources@[b]).name@ != name@,
                forall|b: int| 0 <= b < k ==> (#[trigger] resources@[b]).name@ != name@,
            decreases resources@.len() - k,
        {
            if str_eq(resources[k].name.as_str(), name) {
                return true;
            }
            k = k + 1;
        }
        m = m + 1;
    }
    false
}

/// The plain scalar fields among `children`, as name and stored scalar, in
/// declaration order.
pub open spec fn plain_fields(res: ResourceSchema, children: Seq<usize>) -> Seq<(Seq<char>, ScalarType)>
    decreases children.len(),
{
    if children.len() == 0 {
        Seq::empty()
    } else {
        let rest = plain_fields(res, children.drop_last());
        let n = children.last() as int;
        if 0 <= n < res.nodes@.len() && res.nodes@[n].key_params@.len() == 0 {
            match res.nodes@[n].element {
                Element::Slot(Some(s)) => rest.push((res.nodes@[n].name@, s)),
                _ => rest,
            }
        } else {
            rest
        }
    }
}

/// The plain scalar fields of the top-level layer `layer` of the resource at
/// `root`, or `None` when either is unknown.
pub open spec fn group_fields(program: ProgramSchema, root: Seq<char>, layer: Seq<char>) -> Option<Seq<(Seq<char>, ScalarType)>> {
    match find_root(program.modules@, root) {
        None => None,
        Some(res) => match find_member(res, res.members@, layer) {
            None => None,
            Some(n) => Some(plain_fields(res, res.nodes@[n].children@)),
        },
    }
}

/// The group members as names and scalars.
pub open spec fn fields_view(v: Seq<(String, ScalarType)>) -> Seq<(Seq<char>, ScalarType)> {
    v.map_values(|f: (String, ScalarType)| (f.0@, f.1))
}

/// The scalar field members of a saved root's group layer, as name and value
/// type in declaration order, for materializing a whole group entry; `None`
/// when the root or the layer is unknown.
pub fn resource_group_members(program: &ProgramSchema, root: &str, layer: &str) -> (r: Option<Vec<(String, ScalarType)>>)
    ensures
        match group_fields(*program, root@, layer@) {
            Some(f) => r matches Some(v) && fields_view(v@) == f,
            None => r is None,
        },
{
    let resource = match find_resource(program, root) {
        Some(res) => res,
        None => return None,
    };
    let n = match find_member_in(resource, &resource.members, layer) {
        Some(n) => n,
        None => return None,
    };
    let children = &resource.nodes[n].children;
    let mut out: Vec<(String, ScalarType)> = Vec::new();
    let mut k: usize = 0;
    while k < children.len()
        invariant
            k <= children@.len(),
            fields_view(out@) == plain_fields(*resource, children@.take(k as int)),
        decreases children@.len() - k,
    {
        let c = children[k];
        let ghost before = out@;
        assert(children@.take(k + 1).drop_last() =~= children@.take(k as int));
        if c < resource.nodes.len() && resource.nodes[c].key_params.len() == 0 {
            if let Element::Slot(Some(s)) = resource.nodes[c].element {
                let name = crate::text::text_of_str(resource.nodes[c].name.as_str());
                out.push((name, s));
                assert(fields_view(out@) =~= fields_view(before).push((resource.nodes@[c as int].name@, s)));
            }
        }
        k = k + 1;
    }
    assert(children@.take(k as int) =~= children@);
    Some(out)
}

// ---------------------------------------------------------------------------
// Saved-path expressions.
/// The shape of an expression, as far as saved-path tests read it.
#[derive(Debug, PartialEq, Eq)]
pub enum PathExpr {
    /// A `^root` reference.
    SavedRoot,
    /// A call, such as keys applied to a root or layer.
    Call { callee: Box<PathExpr> },
    /// A `.field` access.
    Field { base: Box<PathExpr> },
    /// A `?.field` access.
    OptionalField { base: Box<PathExpr> },
    /// Any other expression.
    Other,
}

/// Whether an expression is rooted at a `^root`.
pub open spec fn saved_path_spec(e: PathExpr) -> bool
    decreases e,
{
    match e {
        PathExpr::SavedRoot => true,
        PathExpr::Call { callee } => saved_path_spec(*callee),
        PathExpr::Field { base } => saved_path_spec(*base),
        PathExpr::OptionalField { base } => saved_path_spec(*base),
        PathExpr::Other => false,
    }
}

/// Whether an expression denotes a saved path (rooted at a `^root`), as
/// opposed to a local value.
pub fn is_saved_path(expr: &PathExpr) -> (r: bool)
    ensures
        r == saved_path_spec(*expr),
    decreases expr,
{
    match expr {
        PathExpr::SavedRoot => true,
        PathExpr::Call { callee } => is_saved_path(callee),
        PathExpr::Field { base } => is_saved_path(base),
        PathExpr::OptionalField { base } => is_saved_path(base),
        PathExpr::Other => false,
    }
}

/// Whether a field base reaches its field through a group layer: a keyed
/// group entry (a call on a `.layer` access) or an unkeyed group hop (a
/// `.field` off a saved path).
pub fn is_group_base(base: &PathExpr) -> (r: bool)
    ensures
        r == (match *base {
            PathExpr::Call { callee } => *callee is Field,
            PathExpr::Field { base } => saved_path_spec(*base),
            _ => false,
        }),
{
    match base {
        PathExpr::Call { callee } => matches!(**callee, PathExpr::Field { .. }),
        PathExpr::Field { base } => is_saved_path(base),
        _ => false,
    }
}


// ---------------------------------------------------------------------------
// Neighbor seeks.
/// Where a `next`/`prev` seek scans within a keyed layer: how many of the
/// supplied keys form the parent prefix, whether the supplied key just after
/// that prefix anchors a sibling seek (else the seek finds the layer's edge),
/// and the declared kind of the column it scans.
#[derive(Debug, Clone, Copy, PartialEq, Eq, Structural)]
pub struct NeighborSeek {
    pub prefix_len: usize,
    pub anchored: bool,
    pub expected_key: Option<ScalarType>,
}

/// The declared scalar kind of key column `column`, if it has one.
pub open spec fn column_scalar(key_params: Seq<KeyDef>, column: int) -> Option<ScalarType> {
    if 0 <= column < key_params.len() {
        key_params[column].scalar
    } else {
        None
    }
}

/// The seek of a layer path whose last layer was given `supplied` keys and
/// declares `key_params`: a partial prefix descends to the first unfilled
/// column and seeks its edge; a full key list anchors a sibling seek on its
/// last key under the columns before it. `None` when no key was supplied and
/// none is declared.
pub open spec fn neighbor_seek_spec(supplied: nat, key_params: Seq<KeyDef>) -> Option<NeighborSeek> {
    if supplied < key_params.len() {
        Some(
            NeighborSeek {
                prefix_len: supplied as usize,
                anchored: false,
                expected_key: column_scalar(key_params, supplied as int),
            },
        )
    } else if supplied == 0 {
        None
    } else {
        Some(
            NeighborSeek {
                prefix_len: (supplied - 1) as usize,
                anchored: true,
                expected_key: column_scalar(key_params, supplied - 1),
            },
        )
    }
}

/// The seek of a layer path whose last layer was given `supplied` keys.
pub fn neighbor_seek(supplied: &[SavedKey], key_params: &[KeyDef]) -> (r: Option<NeighborSeek>)
    ensures
        r == neighbor_seek_spec(supplied@.len(), key_params@),
{
    let n = supplied.len();
    if n < key_params.len() {
        let expected_key = key_params[n].scalar;
        return Some(NeighborSeek { prefix_len: n, anchored: false, expected_key });
    }
    if n == 0 {
        return None;
    }
    let column = n - 1;
    let expected_key = if column < key_params.len() {
        key_params[column].scalar
    } else {
        None
    };
    Some(NeighborSeek { prefix_len: column, anchored: true, expected_key })
}


/// What a `next`/`prev` target looks like once its path is lowered: whether
/// it ends at a record, the identity keys it supplies, the keys supplied to
/// each of its layers, and the key parameters the last layer declares.
#[derive(Debug, Clone, PartialEq, Eq)]
pub struct LoweredProbe {
    pub record_terminal: bool,
    pub identity: Vec<SavedKey>,
    pub layers: Vec<Vec<SavedKey>>,
    pub last_layer_params: Vec<KeyDef>,
}

/// The target of a `next`/`prev` seek, as far as the seek's choice reads it.
#[derive(Debug, Clone, PartialEq, Eq)]
pub enum NeighborProbe {
    /// A saved root written directly, whose records have identity keys.
    DirectRoot,
    /// A path that does not lower to a saved place.
    NotLowered,
    /// A lowered saved path.
    Lowered(LoweredProbe),
}

/// Where a `next`/`prev` seek scans.
#[derive(Debug, Clone, Copy, PartialEq, Eq, Structural)]
pub enum NeighborPlan {
    /// Among the records of the root: from its edge, or, when `anchored`,
    /// beside the record of the single identity key supplied.
    Record { anchored: bool },
    /// Within a keyed layer, as the seek says.
    Data(NeighborSeek),
}

/// A `next`/`prev` target that cannot be sought.
#[derive(Debug, Clone, Copy, PartialEq, Eq, Structural)]
pub enum NeighborFault {
    /// The path does not end at a record or a keyed layer with a key to
    /// seek from.
    UnsupportedPath,
    /// A record of a composite identity named without layers.
    CompositeIdentity,
}

impl NeighborFault {
    /// The description of the unsupported construct.
    pub fn message(&self) -> (r: &'static str)
        ensures
            r@ == (match self {
                NeighborFault::UnsupportedPath => "`next`/`prev` of this path"@,
                NeighborFault::CompositeIdentity => "`next`/`prev` of a composite-identity record (scope a single key level)"@,
            }),
    {
        match self {
            NeighborFault::UnsupportedPath => "`next`/`prev` of this path",
            NeighborFault::CompositeIdentity => "`next`/`prev` of a composite-identity record (scope a single key level)",
        }
    }
}

/// Where a `next`/`prev` seek on `probe` scans: a direct root seeks among
/// its records from the edge; a path that does not lower has no neighbor; a
/// path must end at a record; with no layers its single identity key anchors
/// a record seek (a composite identity is refused); otherwise the last
/// layer's supplied keys choose the keyed-layer seek.
pub open spec fn neighbor_target_spec(probe: NeighborProbe) -> Result<Option<NeighborPlan>, NeighborFault> {
    match probe {
        NeighborProbe::DirectRoot => Ok(Some(NeighborPlan::Record { anchored: false })),
        NeighborProbe::NotLowered => Ok(None),
        NeighborProbe::Lowered(l) => if !l.record_terminal {
            Err(NeighborFault::UnsupportedPath)
        } else if l.layers@.len() == 0 {
            if l.identity@.len() == 1 {
                Ok(Some(NeighborPlan::Record { anchored: true }))
            } else {
                Err(NeighborFault::CompositeIdentity)
            }
        } else {
            match neighbor_seek_spec(l.layers@.last()@.len(), l.last_layer_params@) {
                Some(seek) => Ok(Some(NeighborPlan::Data(seek))),
                None => Err(NeighborFault::UnsupportedPath),
            }
        },
    }
}

/// Where a `next`/`prev` seek on `probe` scans, or why it cannot.
pub fn neighbor_target_plan(probe: &NeighborProbe) -> (r: Result<Option<NeighborPlan>, NeighborFault>)
    ensures
        r == neighbor_target_spec(*probe),
{
    match probe {
        NeighborProbe::DirectRoot => Ok(Some(NeighborPlan::Record { anchored: false })),
        NeighborProbe::NotLowered => Ok(None),
        NeighborProbe::Lowered(l) => {
            if !l.record_terminal {
                return Err(NeighborFault::UnsupportedPath);
            }
            if l.layers.len() == 0 {
                if l.identity.len() == 1 {
                    return Ok(Some(NeighborPlan::Record { anchored: true }));
                }
                return Err(NeighborFault::CompositeIdentity);
            }
            let last = &l.layers[l.layers.len() - 1];
            match neighbor_seek(last.as_slice(), l.last_layer_params.as_slice()) {
                Some(seek) => Ok(Some(NeighborPlan::Data(seek))),
                None => Err(NeighborFault::UnsupportedPath),
            }
        },
    }
}

// ---------------------------------------------------------------------------
// Identity keys of a saved path.
/// How the identity of a saved path is addressed: an index terminal needs
/// none; otherwise the identity keys are lowered from the arguments, which a
/// record with identity keys must supply.
#[derive(Debug, Clone, Copy, PartialEq, Eq, Structural)]
pub enum IdentityAddressing {
    /// An index lookup: no identity keys are lowered.
    NotNeeded,
    /// The identity arguments are lowered against the identity keys.
    Lower,
    /// A record with identity keys was given no identity arguments.
    MissingKeys { expected: usize },
}

/// How a saved path addresses its identity, from whether it ends at an
/// index, how many identity arguments it was given and how many identity
/// keys its root declares.
pub fn identity_addressing(index_terminal: bool, identity_args: usize, identity_keys: usize) -> (r:
    IdentityAddressing)
    ensures
        r == (if index_terminal {
            IdentityAddressing::NotNeeded
        } else if identity_args == 0 && identity_keys != 0 {
            IdentityAddressing::MissingKeys { expected: identity_keys }
        } else {
            IdentityAddressing::Lower
        }),
{
    if index_terminal {
        IdentityAddressing::NotNeeded
    } else if identity_args == 0 && identity_keys != 0 {
        IdentityAddressing::MissingKeys { expected: identity_keys }
    } else {
        IdentityAddressing::Lower
    }
}

/// The diagnostic for a record of `root` addressed without its identity
/// keys.
pub fn missing_identity_message(root: &str, expected: usize) -> (r: String)
    ensures
        r@ == "`^"@ + root@ + "` expects "@ + crate::numeral::decimal_chars(expected as nat)
            + " identity key(s), got 0; address a record with `^"@ + root@ + "(id)`"@,
{
    let mut out = String::new();
    crate::strbuf::push_str(&mut out, "`^");
    crate::strbuf::push_str(&mut out, root);
    crate::strbuf::push_str(&mut out, "` expects ");
    crate::numeral::push_decimal(&mut out, expected as u64);
    crate::strbuf::push_str(&mut out, " identity key(s), got 0; address a record with `^");
    crate::strbuf::push_str(&mut out, root);
    crate::strbuf::push_str(&mut out, "(id)`");
    out
}

// ---------------------------------------------------------------------------
// Walking a non-unique index.
/// The kind of range an index walk was given on its first unpinned key.
#[derive(Debug, Clone, Copy, PartialEq, Eq, Structural)]
pub enum IndexRangeKind {
    /// A range of scalar keys, scanned as one byte span.
    Scalar,
    /// The in-range members of an enum, walked one member at a time.
    EnumMembers,
}

/// The shape of a walk over a non-unique index: where the identity keys
/// start among its `arg_count` key columns, and how many levels are left to
/// walk below the exactly given prefix.
#[derive(Debug, Clone, Copy, PartialEq, Eq, Structural)]
pub struct IndexWalkShape {
    pub range: Option<IndexRangeKind>,
    pub identity_start: usize,
    pub walk_depth: usize,
}

/// The shape of a walk over a non-unique index of `arg_count` key columns
/// whose last `identity_keys` columns are the identity, given `exact` keys
/// exactly and a range, if any, on the next: a walk with no range whose next
/// column is an enum walks that column's members in declared order; a scalar
/// range is scanned without a walk; an enum range takes one level; otherwise
/// the walk descends from the prefix to the leaf.
pub fn index_walk_shape(
    arg_count: usize,
    identity_keys: usize,
    exact: usize,
    range: Option<IndexRangeKind>,
    next_is_enum: bool,
) -> (r: IndexWalkShape)
    ensures
        r.range == (if range is None && next_is_enum {
            Some(IndexRangeKind::EnumMembers)
        } else {
            range
        }),
        r.identity_start == (if arg_count >= identity_keys {
            arg_count - identity_keys
        } else {
            0
        }),
        r.walk_depth == (match r.range {
            Some(IndexRangeKind::Scalar) => 0,
            Some(IndexRangeKind::EnumMembers) => if arg_count >= exact + 1 {
                arg_count - exact - 1
            } else {
                0
            },
            None => if arg_count >= exact {
                arg_count - exact
            } else {
                0
            },
        }),
{
    let range = if range.is_none() && next_is_enum {
        Some(IndexRangeKind::EnumMembers)
    } else {
        range
    };
    let identity_start = arg_count.saturating_sub(identity_keys);
    let walk_depth = match range {
        Some(IndexRangeKind::Scalar) => 0,
        Some(IndexRangeKind::EnumMembers) => if exact < arg_count {
            arg_count - exact - 1
        } else {
            0
        },
        None => arg_count.saturating_sub(exact),
    };
    IndexWalkShape { range, identity_start, walk_depth }
}

/// One argument of an index terminal, as far as starting a walk reads it:
/// whether it was passed by name, and whether it is a range.
#[derive(Debug, Clone, Copy, PartialEq, Eq, Structural)]
pub struct IndexArgShape {
    pub named: bool,
    pub is_range: bool,
}

/// The terminal of a saved path, as far as starting an index walk reads it.
#[derive(Debug, Clone, PartialEq, Eq)]
pub enum WalkTerminal {
    /// A lookup in the index named `name`, which may be unique, declaring
    /// `arg_count` key columns.
    Index { name: String, unique: bool, arg_count: usize, args: Vec<IndexArgShape> },
    /// Any other terminal.
    Other,
}

/// Why a saved path cannot be walked through its index; each names the
/// construct that is not supported.
#[derive(Debug, Clone, Copy, PartialEq, Eq, Structural)]
pub enum IndexWalkRefusal {
    TooManyArguments,
    UnknownIndex,
    NamedArgument,
}

impl IndexWalkRefusal {
    /// The construct that is not supported.
    pub fn construct(&self) -> (r: &'static str)
        ensures
            r@ == match *self {
                IndexWalkRefusal::TooManyArguments => "iterating this saved path"@,
                IndexWalkRefusal::UnknownIndex => "this index lookup"@,
                IndexWalkRefusal::NamedArgument => "an index lookup with named arguments"@,
            },
    {
        match self {
            IndexWalkRefusal::TooManyArguments => "iterating this saved path",
            IndexWalkRefusal::UnknownIndex => "this index lookup",
            IndexWalkRefusal::NamedArgument => "an index lookup with named arguments",
        }
    }
}

/// Where a walk over a non-unique index starts: the position of its index
/// among the path's indexes, how many leading arguments pin keys exactly,
/// and whether the argument after them is a range.
#[derive(Debug, Clone, Copy, PartialEq, Eq, Structural)]
pub struct IndexWalkStart {
    pub index: usize,
    pub exact: usize,
    pub ranged: bool,
}

/// The position, from `i` on, of the first argument that is named or a
/// range, or the number of arguments when none is.
pub open spec fn first_stop(args: Seq<IndexArgShape>, i: int) -> int
    decreases args.len() - i,
{
    if i >= args.len() {
        args.len() as int
    } else if args[i].named || args[i].is_range {
        i
    } else {
        first_stop(args, i + 1)
    }
}

/// The position of the first index in `indexes` named `name`.
pub open spec fn index_named(indexes: Seq<Seq<char>>, name: Seq<char>) -> Option<int>
    decreases indexes.len(),
{
    if indexes.len() == 0 {
        None
    } else if indexes.last() == name && index_named(indexes.drop_last(), name) is None {
        Some(indexes.len() - 1)
    } else {
        index_named(indexes.drop_last(), name)
    }
}

/// Where a walk through the terminal of a saved path whose indexes are named
/// `indexes` starts: no walk unless the terminal is a lookup in a non-unique
/// index; refused when it gives more arguments than the index has columns,
/// when no index has its name, or when an argument up to and including the
/// first range is named; else the exact prefix is the arguments before the
/// first range (all of them when none is one).
pub open spec fn index_walk_start_spec(terminal: WalkTerminal, indexes: Seq<Seq<char>>) -> Result<
    Option<IndexWalkStart>,
    IndexWalkRefusal,
> {
    match terminal {
        WalkTerminal::Index { name, unique, arg_count, args } => if unique {
            Ok(None)
        } else if args@.len() > arg_count {
            Err(IndexWalkRefusal::TooManyArguments)
        } else if index_named(indexes, name@) is None {
            Err(IndexWalkRefusal::UnknownIndex)
        } else {
            let stop = first_stop(args@, 0);
            if stop < args@.len() && args@[stop].named {
                Err(IndexWalkRefusal::NamedArgument)
            } else {
                Ok(
                    Some(
                        IndexWalkStart {
                            index: index_named(indexes, name@).unwrap() as usize,
                            exact: stop as usize,
                            ranged: stop < args@.len(),
                        },
                    ),
                )
            }
        },
        WalkTerminal::Other => Ok(None),
    }
}

proof fn lemma_index_named_first(indexes: Seq<Seq<char>>, name: Seq<char>, i: int)
    requires
        0 <= i < indexes.len(),
        indexes[i] == name,
        forall|j: int| 0 <= j < i ==> indexes[j] != name,
    ensures
        index_named(indexes, name) == Some(i),
    decreases indexes.len(),
{
    if i < indexes.len() - 1 {
        lemma_index_named_first(indexes.drop_last(), name, i);
    } else {
        lemma_index_named_absent(indexes.drop_last(), name);
    }
}

proof fn lemma_index_named_absent(indexes: Seq<Seq<char>>, name: Seq<char>)
    requires
        forall|j: int| 0 <= j < indexes.len() ==> indexes[j] != name,
    ensures
        index_named(indexes, name) is None,
    decreases indexes.len(),
{
    if indexes.len() > 0 {
        lemma_index_named_absent(indexes.drop_last(), name);
    }
}

/// Decides where a walk through a saved path's terminal starts, or refuses
/// it: see `index_walk_start_spec`. It reads the arguments' shapes only, so
/// a named argument is refused before any argument is evaluated; the exact
/// arguments are evaluated after it, and the walk shaped by
/// `index_walk_shape`.
pub fn index_walk_start(terminal: &WalkTerminal, indexes: &Vec<String>) -> (r: Result<
    Option<IndexWalkStart>,
    IndexWalkRefusal,
>)
    ensures
        r == index_walk_start_spec(*terminal, string_views(indexes@)),
{
    let (name, arg_count, args) = match terminal {
        WalkTerminal::Index { name, unique, arg_count, args } => {
            if *unique {
                return Ok(None);
            }
            (name, *arg_count, args)
        },
        WalkTerminal::Other => return Ok(None),
    };
    if args.len() > arg_count {
        return Err(IndexWalkRefusal::TooManyArguments);
    }
    let ghost views = string_views(indexes@);
    let mut index: usize = 0;
    while index < indexes.len()
        invariant
            0 <= index <= indexes.len(),
            views == string_views(indexes@),
            forall|j: int| 0 <= j < index ==> views[j] != name@,
        ensures
            0 <= index <= indexes.len(),
            forall|j: int| 0 <= j < index ==> views[j] != name@,
            index < indexes.len() ==> views[index as int] == name@,
        decreases indexes.len() - index,
    {
        if str_eq(indexes[index].as_str(), name.as_str()) {
            break;
        }
        index = index + 1;
    }
    if index == indexes.len() {
        proof {
            lemma_index_named_absent(views, name@);
        }
        return Err(IndexWalkRefusal::UnknownIndex);
    }
    proof {
        lemma_index_named_first(views, name@, index as int);
    }
    let mut exact: usize = 0;
    while exact < args.len()
        invariant
            0 <= exact <= args.len(),
            first_stop(args@, 0) == first_stop(args@, exact as int),
            *terminal == (WalkTerminal::Index { name: *name, unique: false, arg_count, args: *args }),
            args@.len() <= arg_count,
            index_named(string_views(indexes@), name@) == Some(index as int),
        decreases args.len() - exact,
    {
        if args[exact].named {
            return Err(IndexWalkRefusal::NamedArgument);
        }
        if args[exact].is_range {
            return Ok(Some(IndexWalkStart { index, exact, ranged: true }));
        }
        exact = exact + 1;
    }
    Ok(Some(IndexWalkStart { index, exact, ranged: false }))
}

// ---------------------------------------------------------------------------
// Key guards.
/// A key whose scalar kind differs from its declared key type.
#[derive(Debug, Clone, Copy, PartialEq, Eq, Structural)]
pub struct KeyTypeFault {
    pub expected: ScalarType,
    pub found: ScalarType,
}

/// Guards one key against its declared key parameter: a scalar declaration
/// refuses a key of another kind; a deferred declaration carries no
/// expectation and admits any key.
pub fn guard_key_type(declared: &KeyDef, key: &SavedKey) -> (r: Result<(), KeyTypeFault>)
    ensures
        r == (match declared.scalar {
            Some(expected) => if expected != key.kind() {
                Err(KeyTypeFault { expected, found: key.kind() })
            } else {
                Ok(())
            },
            None => Ok(()),
        }),
{
    match declared.scalar {
        Some(expected) => {
            let found = key.scalar_type();
            if expected != found {
                Err(KeyTypeFault { expected, found })
            } else {
                Ok(())
            }
        },
        None => Ok(()),
    }
}

/// A position below 1 in a sequence, which addresses no element.
#[derive(Debug, Clone, Copy, PartialEq, Eq, Structural)]
pub struct AbsentPosition;

impl AbsentPosition {
    /// The diagnostic for the absent position.
    pub fn message(&self) -> (r: String)
        ensures
            r@ == "a sequence position below 1 is absent"@,
    {
        String::from_str("a sequence position below 1 is absent")
    }
}

/// Whether `key` is an int position below 1.
pub open spec fn non_positive_int(key: SavedKey) -> bool {
    key matches SavedKey::Int(p) && p < 1
}

/// Whether a layer declared by `expected` is a 1-based sequence, keyed by one
/// int column.
pub open spec fn is_sequence_layer(expected: Seq<KeyDef>) -> bool {
    expected.len() == 1 && expected[0].scalar == Some(ScalarType::Int)
}

/// Whether reading `key` in a layer declared by `expected` finds it absent.
pub open spec fn read_position_absent(expected: Seq<KeyDef>, key: SavedKey) -> bool {
    is_sequence_layer(expected) && non_positive_int(key)
}

/// Whether a write at `keys` into a collection is refused.
pub open spec fn write_position_refused(keys: Seq<SavedKey>) -> bool {
    keys.len() == 1 && non_positive_int(keys[0])
}

/// Guards a key into a layer declared by `expected`: a layer keyed by one int
/// column is a 1-based sequence, so a position below 1 there is absent. Any
/// other layer shape admits the key.
pub fn guard_sequence_position(expected: &[KeyDef], key: &SavedKey) -> (r: Result<(), AbsentPosition>)
    ensures
        r is Err <==> read_position_absent(expected@, *key),
{
    if expected.len() == 1 {
        if let Some(ScalarType::Int) = expected[0].scalar {
            if let SavedKey::Int(position) = key {
                if *position < 1 {
                    return Err(AbsentPosition);
                }
            }
        }
    }
    Ok(())
}

/// Refuses a write into a single-int-keyed collection at a position below 1;
/// a composite or non-int key carries meaning of its own and is admitted.
pub fn reject_non_positive_sequence_key(keys: &[SavedKey]) -> (r: Result<(), AbsentPosition>)
    ensures
        r is Err <==> write_position_refused(keys@),
{
    if keys.len() == 1 {
        if let SavedKey::Int(position) = &keys[0] {
            if *position < 1 {
                return Err(AbsentPosition);
            }
        }
    }
    Ok(())
}

/// Reads and writes agree on sequence positions: in a layer keyed by one int
/// column, a key is absent as a read position exactly when a write at that
/// single key is refused.
pub proof fn lemma_sequence_position_guards_agree(expected: Seq<KeyDef>, key: SavedKey)
    requires
        is_sequence_layer(expected),
    ensures
        read_position_absent(expected, key) == write_position_refused(seq![key]),
{
}

// ---------------------------------------------------------------------------
// Enum ranges.
/// The order a scan walks an ordered level in.
#[derive(Debug, Clone, Copy, PartialEq, Eq, Structural)]
pub enum Direction {
    Ascending,
    Descending,
}

/// A range bound that names no member of the enum being ranged.
#[derive(Debug, Clone, Copy, PartialEq, Eq, Structural)]
pub struct ForeignEnumBound;

impl ForeignEnumBound {
    /// The diagnostic for the foreign bound.
    pub fn message(&self) -> (r: String)
        ensures
            r@ == "this index range bound takes a different enum"@,
    {
        String::from_str("this index range bound takes a different enum")
    }
}

/// The views of a list of names.
pub open spec fn string_views(v: Seq<String>) -> Seq<Seq<char>> {
    v.map_values(|s: String| s@)
}

/// The ordinal of the first member named `name`.
pub open spec fn ordinal_of(members: Seq<Seq<char>>, name: Seq<char>) -> Option<int>
    decreases members.len(),
{
    if members.len() == 0 {
        None
    } else if members[0] == name {
        Some(0)
    } else {
        match ordinal_of(members.drop_first(), name) {
            Some(k) => Some(k + 1),
            None => None,
        }
    }
}

/// The half-open window of ordinals a range with the given bound ordinals
/// keeps among `len` members: an open start is the first member, an open end
/// is past the last, an inclusive end keeps its own member, and an end past
/// the last member is clamped; a start past the end keeps nothing.
pub open spec fn enum_window(len: int, start: Option<int>, end: Option<int>, inclusive_end: bool) -> (
    int,
    int,
) {
    let s = match start {
        Some(p) => p,
        None => 0,
    };
    let e = match end {
        Some(p) => if inclusive_end {
            p + 1
        } else {
            p
        },
        None => len,
    };
    let e2 = if e < len {
        e
    } else {
        len
    };
    if s <= e2 {
        (s, e2)
    } else {
        (0, 0)
    }
}

/// The members of an enum, in declaration order, that a range between the
/// named bounds keeps; a bound that names no member is refused.
pub open spec fn enum_range_spec(
    members: Seq<Seq<char>>,
    start: Option<Seq<char>>,
    end: Option<Seq<char>>,
    inclusive_end: bool,
) -> Result<Seq<Seq<char>>, ForeignEnumBound> {
    let s = match start {
        Some(n) => ordinal_of(members, n),
        None => Some(0),
    };
    let e = match end {
        Some(n) => ordinal_of(members, n),
        None => Some(members.len() as int),
    };
    if s is None || e is None {
        Err(ForeignEnumBound)
    } else {
        let w = enum_window(
            members.len() as int,
            match start {
                Some(_) => s,
                None => None,
            },
            match end {
                Some(_) => e,
                None => None,
            },
            inclusive_end,
        );
        Ok(members.subrange(w.0, w.1))
    }
}

proof fn lemma_ordinal_found(members: Seq<Seq<char>>, name: Seq<char>, i: int)
    requires
        0 <= i < members.len(),
        members[i] == name,
        forall|j: int| 0 <= j < i ==> members[j] != name,
    ensures
        ordinal_of(members, name) == Some(i),
    decreases members.len(),
{
    if i > 0 {
        assert forall|j: int| 0 <= j < i - 1 implies members.drop_first()[j] != name by {
            assert(members.drop_first()[j] == members[j + 1]);
        }
        lemma_ordinal_found(members.drop_first(), name, i - 1);
    }
}

proof fn lemma_ordinal_absent(members: Seq<Seq<char>>, name: Seq<char>)
    requires
        forall|j: int| 0 <= j < members.len() ==> members[j] != name,
    ensures
        ordinal_of(members, name) is None,
    decreases members.len(),
{
    if members.len() > 0 {
        assert forall|j: int| 0 <= j < members.len() - 1 implies members.drop_first()[j] != name by {
            assert(members.drop_first()[j] == members[j + 1]);
        }
        lemma_ordinal_absent(members.drop_first(), name);
    }
}

/// The ordinal of the member named `name`.
fn member_ordinal(members: &[String], name: &str) -> (r: Option<usize>)
    ensures
        r matches Some(k) ==> ordinal_of(string_views(members@), name@) == Some(k as int),
        r is None ==> ordinal_of(string_views(members@), name@) is None,
        r matches Some(k) ==> k < members@.len(),
{
    let ghost names = string_views(members@);
    let mut i: usize = 0;
    while i < members.len()
        invariant
            i <= members@.len(),
            names == string_views(members@),
            forall|j: int| 0 <= j < i ==> names[j] != name@,
        decreases members@.len() - i,
    {
        if str_eq(members[i].as_str(), name) {
            proof {
                lemma_ordinal_found(names, name@, i as int);
            }
            return Some(i);
        }
        i = i + 1;
    }
    proof {
        lemma_ordinal_absent(names, name@);
    }
    None
}

/// The members of `members`, in declaration order, between the named bounds:
/// an open start is the first member and an open end runs past the last; an
/// inclusive end keeps the member it names. A bound that names no member of
/// the enum is refused.
pub fn enum_range_members(
    members: &[String],
    start: Option<&str>,
    end: Option<&str>,
    inclusive_end: bool,
) -> (r: Result<Vec<String>, ForeignEnumBound>)
    ensures
        match enum_range_spec(
            string_views(members@),
            match start {
                Some(n) => Some(n@),
                None => None,
            },
            match end {
                Some(n) => Some(n@),
                None => None,
            },
            inclusive_end,
        ) {
            Ok(kept) => r matches Ok(v) && string_views(v@) == kept,
            Err(e) => r == Err::<Vec<String>, ForeignEnumBound>(e),
        },
{
    let ghost names = string_views(members@);
    let first: usize = match start {
        Some(name) => match member_ordinal(members, name) {
            Some(k) => k,
            None => return Err(ForeignEnumBound),
        },
        None => 0,
    };
    let end_at: usize = match end {
        Some(name) => match member_ordinal(members, name) {
            Some(k) => if inclusive_end {
                assert(k < members.len());
                k + 1
            } else {
                k
            },
            None => return Err(ForeignEnumBound),
        },
        None => members.len(),
    };
    let ghost sw: Option<int> = match start {
        Some(n) => Some(first as int),
        None => None,
    };
    let ghost ew: Option<int> = match end {
        Some(n) => ordinal_of(names, n@),
        None => None,
    };
    assert(end_at == match ew {
        Some(p) => if inclusive_end {
            p + 1
        } else {
            p
        },
        None => members@.len() as int,
    });
    let last: usize = if end_at < members.len() {
        end_at
    } else {
        members.len()
    };
    let mut kept: Vec<String> = Vec::new();
    if first <= last {
        let mut i: usize = first;
        while i < last
            invariant
                first <= i <= last <= members@.len(),
                names == string_views(members@),
                string_views(kept@) == names.subrange(first as int, i as int),
            decreases last - i,
        {
            let name = members[i].clone();
            let ghost before = kept@;
            kept.push(name);
            assert(kept@ == before.push(members@[i as int]));
            assert(string_views(before).len() == before.len());
            assert(string_views(kept@).len() == kept@.len());
            assert(before.len() == i - first);
            assert(names.len() == members@.len());
            assert forall|j: int| 0 <= j < kept@.len() implies string_views(kept@)[j]
                == names.subrange(first as int, i + 1)[j] by {
                if j < before.len() {
                    assert(string_views(before)[j] == names.subrange(first as int, i as int)[j]);
                }
            }
            assert(string_views(kept@) =~= names.subrange(first as int, i + 1));
            i = i + 1;
        }
    } else {
        assert(string_views(kept@) =~= names.subrange(0, 0));
    }
    assert(enum_window(names.len() as int, sw, ew, inclusive_end) == (if first <= last {
        (first as int, last as int)
    } else {
        (0int, 0int)
    }));
    Ok(kept)
}

/// The members in the order a scan in `dir` visits them: declaration order
/// ascending, reversed descending.
pub fn members_in_dir(members: Vec<SavedKey>, dir: Direction) -> (r: Vec<SavedKey>)
    ensures
        r@ == (match dir {
            Direction::Ascending => members@,
            Direction::Descending => members@.reverse(),
        }),
{
    match dir {
        Direction::Ascending => members,
        Direction::Descending => {
            let ghost given = members@;
            let mut rest = members;
            let mut out: Vec<SavedKey> = Vec::new();
            while rest.len() > 0
                invariant
                    rest@.len() <= given.len(),
                    rest@ == given.subrange(0, rest@.len() as int),
                    out@ == given.subrange(rest@.len() as int, given.len() as int).reverse(),
                decreases rest@.len(),
            {
                let ghost n = rest@.len();
                let item = rest.pop().unwrap();
                out.push(item);
                assert(out@ =~= given.subrange(n - 1, given.len() as int).reverse());
            }
            assert(given.subrange(0, given.len() as int) =~= given);
            out
        },
    }
}

} // verus!
